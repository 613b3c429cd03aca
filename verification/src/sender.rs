//! Deciding what to send and when.
//!
//! The sender keeps every state it has sent but not had acknowledged, so it can always
//! diff against something the peer is known or assumed to hold.

use vstd::prelude::*;

use crate::compressor::zlib_deflated;
use crate::connection::since;
use crate::crypto;
use crate::crypto::random_bytes;
use crate::fragment::{
    contents_size, split, split_payloads_are_well_numbered, Fragment, FragmentError, FragmentView,
    Fragmenter, FragmenterView, FINAL_BIT,
};
use crate::packet;
use crate::packet::MOSH_PROTOCOL_VERSION;
use crate::protobufs::transport::{Instruction, InstructionView};
use crate::protobufs::Message;
use crate::text::bytes_eq;
use crate::views::{group_views, views};

verus! {

broadcast use group_views;

/// Milliseconds between frames.
pub const SEND_INTERVAL_MIN: u64 = 20;

pub const SEND_INTERVAL_MAX: u64 = 250;

/// Milliseconds between empty acknowledgements.
pub const ACK_INTERVAL: u64 = 3000;

/// Milliseconds before a delayed acknowledgement.
pub const ACK_DELAY: u64 = 100;

/// Shutdown datagrams to send before giving up.
pub const SHUTDOWN_RETRIES: u32 = 16;

/// How long to keep retrying at the frame rate after last hearing from the peer.
pub const ACTIVE_RETRY_TIMEOUT: u64 = 10000;

/// The state number meaning "shutting down".
pub const SHUTDOWN_NUM: u64 = 0xffff_ffff_ffff_ffff;

/// Largest number of sent states kept before thinning the middle of the queue.
pub const MAX_SENT_STATES: usize = 32;

/// When the queue is thinned, so many states are kept behind the one that goes.
pub const RECENT_STATES: usize = 15;

/// The most padding that an instruction carries.
pub const CHAFF_MAX: usize = 16;

/// A state diff that could not be applied.
#[derive(Debug, Clone, Copy, PartialEq, Eq, Structural)]
pub struct StateError;

impl StateError {
    /// The message for a person.
    pub fn text(&self) -> (s: &'static str)
        ensures
            s@ == "could not apply a state diff"@,
    {
        "could not apply a state diff"
    }
}

/// What the transport needs of a state to carry it. Both a screen and a stream of
/// keystrokes are such states. A state that does not say what its operations do promises
/// nothing of them.
pub trait SyncState: Sized + PartialEq {
    /// Is the state consistent?
    open spec fn consistent(&self) -> bool {
        true
    }

    /// Does this state say the same as another that it was taken from?
    open spec fn is_snapshot_of(&self, original: &Self) -> bool {
        true
    }

    /// Is `after` what is left of a state when a prefix is dropped?
    open spec fn subtracted(before: Self, prefix: Self, after: Self) -> bool {
        true
    }

    /// Does `diff` encode the change from `existing` to this state?
    open spec fn is_diff(&self, existing: &Self, diff: Seq<u8>) -> bool {
        true
    }

    /// Does `diff` encode this state from nothing?
    open spec fn is_init_diff(&self, diff: Seq<u8>) -> bool {
        true
    }

    /// Can a diff be applied?
    open spec fn readable(diff: Seq<u8>) -> bool {
        true
    }

    /// Is `after` what a diff turns a state into?
    open spec fn applied(before: Self, diff: Seq<u8>, after: Self) -> bool {
        true
    }

    /// Is `after` a state without its partially-parsed input?
    open spec fn input_reset(before: Self, after: Self) -> bool {
        true
    }

    /// Is `same` what asking whether two states are the same can answer?
    open spec fn found_same(&self, other: &Self, same: bool) -> bool {
        true
    }

    /// Do two states show something different? A state that does not say shows none.
    open spec fn differs(&self, other: &Self) -> bool {
        false
    }

    /// Are these lines a report of how two states differ?
    open spec fn reported(&self, other: &Self, lines: Seq<Seq<char>>) -> bool {
        true
    }

    /// A copy of this state.
    fn snapshot(&self) -> (copy: Self)
        requires
            self.consistent(),
        ensures
            copy.consistent(),
            copy.is_snapshot_of(self),
    ;

    /// Drop the part of this state the peer has already acknowledged.
    fn subtract(&mut self, prefix: &Self)
        requires
            old(self).consistent(),
            prefix.consistent(),
        ensures
            final(self).consistent(),
            Self::subtracted(*old(self), *prefix, *final(self)),
    ;

    /// Encode the change from `existing` to self.
    fn diff_from(&self, existing: &Self) -> (diff: Vec<u8>)
        requires
            self.consistent(),
            existing.consistent(),
        ensures
            self.is_diff(existing, diff@),
    ;

    /// Encode this state from nothing.
    fn init_diff(&self) -> (diff: Vec<u8>)
        requires
            self.consistent(),
        ensures
            self.is_init_diff(diff@),
    ;

    /// Apply a peer's diff.
    fn apply_string(&mut self, diff: &[u8]) -> (r: Result<(), StateError>)
        requires
            old(self).consistent(),
        ensures
            final(self).consistent(),
            r is Ok == Self::readable(diff@),
            r is Ok ==> Self::applied(*old(self), diff@, *final(self)),
    ;

    /// Discard partially-parsed input, used when a state is adopted wholesale. A state that
    /// has none does nothing.
    fn reset_input(&mut self)
        requires
            old(self).consistent(),
        ensures
            final(self).consistent(),
            Self::input_reset(*old(self), *final(self)),
    ;

    /// Are the two states the same, so that there is nothing to tell a peer that has one of
    /// them? A state that cannot be sure says no.
    fn same_as(&self, other: &Self) -> (same: bool)
        requires
            self.consistent(),
            other.consistent(),
        ensures
            self.found_same(other, same),
    ;

    /// Report differences, for the round-trip self-check. A state that has nothing to
    /// compare reports none.
    fn compare(&self, other: &Self) -> (r: bool)
        requires
            self.consistent(),
            other.consistent(),
        ensures
            r == self.differs(other),
    ;

    /// A report of how two states differ, line by line, for a person. A state that has
    /// nothing to compare reports nothing.
    fn report(&self, other: &Self) -> (lines: Vec<String>)
        requires
            self.consistent(),
            other.consistent(),
        ensures
            self.reported(other, views(lines@)),
    ;
}

/// A state with its number and the time it was sent or received.
#[derive(Debug)]
pub struct TimestampedState<S> {
    pub timestamp: u64,
    pub num: u64,
    pub state: S,
}

/// When the next datagrams are due.
#[derive(Debug, Clone, Copy, PartialEq, Eq, Structural)]
pub struct Timing {
    pub next_ack_time: u64,
    pub next_send_time: u64,
    /// Milliseconds to spend collecting input before sending.
    pub send_mindelay: u64,
    pub last_heard: u64,
    /// When the current state first differed from the last sent one.
    pub mindelay_clock: Option<u64>,
}

/// How far the session's end has come.
#[derive(Debug, Clone, Copy, PartialEq, Eq, Structural)]
pub struct Shutdown {
    pub in_progress: bool,
    pub tries: u32,
    pub start: u64,
}

/// What is to be acknowledged.
#[derive(Debug, Clone, Copy, PartialEq, Eq, Structural)]
pub struct Acknowledgment {
    pub num: u64,
    pub pending_data: bool,
}

/// A sum that stays at the largest number.
pub open spec fn later(t: u64, ms: u64) -> u64 {
    if t + ms > u64::MAX {
        u64::MAX
    } else {
        (t + ms) as u64
    }
}

fn add_ms(t: u64, ms: u64) -> (r: u64)
    ensures
        r == later(t, ms),
{
    match t.checked_add(ms) {
        Some(r) => r,
        None => u64::MAX,
    }
}

/// The later of two times.
pub open spec fn latest(a: u64, b: u64) -> u64 {
    if a >= b {
        a
    } else {
        b
    }
}

/// What the current state is compared with.
pub struct Differences {
    /// The state that was sent last is another.
    pub from_last: bool,
    /// The state that the peer is assumed to hold is another.
    pub from_assumed: bool,
    /// The state that the peer is known to hold is another.
    pub from_known: bool,
}

/// What the timers are set by.
#[derive(Debug, Clone, Copy, PartialEq, Eq, Structural)]
pub struct Pace {
    pub now: u64,
    /// Milliseconds between frames.
    pub interval: u64,
    /// Milliseconds until a datagram counts as lost.
    pub timeout: u64,
}

impl Timing {
    /// With a delayed acknowledgement brought forward if data is to be acknowledged.
    pub open spec fn ack_brought_forward(self, pending_data: bool, now: u64) -> Timing {
        if pending_data && self.next_ack_time > later(now, ACK_DELAY) {
            Timing { next_ack_time: later(now, ACK_DELAY), ..self }
        } else {
            self
        }
    }

    /// Has the peer been heard recently?
    pub open spec fn peer_active(self, now: u64) -> bool {
        later(self.last_heard, ACTIVE_RETRY_TIMEOUT) > now
    }

    /// With the next send scheduled: soon if there is something new, at the frame rate
    /// while the peer is assumed not to have it, and after a timeout while the peer is not
    /// known to have it.
    pub open spec fn send_scheduled(self, d: Differences, last_sent: u64, p: Pace) -> Timing {
        if d.from_last {
            let clock = match self.mindelay_clock {
                Some(t) => t,
                None => p.now,
            };
            Timing {
                mindelay_clock: Some(clock),
                next_send_time: latest(
                    later(clock, self.send_mindelay),
                    later(last_sent, p.interval),
                ),
                ..self
            }
        } else if d.from_assumed && self.peer_active(p.now) {
            let at_frame_rate = later(last_sent, p.interval);
            Timing {
                next_send_time: match self.mindelay_clock {
                    Some(t) => latest(at_frame_rate, later(t, self.send_mindelay)),
                    None => at_frame_rate,
                },
                ..self
            }
        } else if d.from_known && self.peer_active(p.now) {
            Timing { next_send_time: later(later(last_sent, p.timeout), ACK_DELAY), ..self }
        } else {
            Timing { next_send_time: u64::MAX, ..self }
        }
    }

    /// With the next acknowledgement hurried along.
    pub open spec fn hurried(self, hurry: bool, last_sent: u64, p: Pace) -> Timing {
        if hurry {
            Timing { next_ack_time: later(last_sent, p.interval), ..self }
        } else {
            self
        }
    }

    /// Is a datagram due?
    pub open spec fn due(self, now: u64) -> bool {
        now >= self.next_ack_time || now >= self.next_send_time
    }

    /// When something is due next.
    pub open spec fn next_due(self) -> u64 {
        if self.next_ack_time <= self.next_send_time {
            self.next_ack_time
        } else {
            self.next_send_time
        }
    }

    fn bring_ack_forward(&mut self, pending_data: bool, now: u64)
        ensures
            *final(self) == old(self).ack_brought_forward(pending_data, now),
    {
        let soon = add_ms(now, ACK_DELAY);
        if pending_data && self.next_ack_time > soon {
            self.next_ack_time = soon;
        }
    }

    fn schedule_send(&mut self, d: &Differences, last_sent: u64, p: Pace)
        ensures
            *final(self) == old(self).send_scheduled(*d, last_sent, p),
    {
        let active = add_ms(self.last_heard, ACTIVE_RETRY_TIMEOUT) > p.now;
        if d.from_last {
            let clock: u64 = match self.mindelay_clock {
                Some(t) => t,
                None => p.now,
            };
            self.mindelay_clock = Some(clock);
            let a = add_ms(clock, self.send_mindelay);
            let b = add_ms(last_sent, p.interval);
            self.next_send_time = if a >= b {
                a
            } else {
                b
            };
            return ;
        }
        if d.from_assumed && active {
            let a = add_ms(last_sent, p.interval);
            self.next_send_time = match self.mindelay_clock {
                Some(t) => {
                    let b = add_ms(t, self.send_mindelay);
                    if a >= b {
                        a
                    } else {
                        b
                    }
                },
                None => a,
            };
            return ;
        }
        if d.from_known && active {
            self.next_send_time = add_ms(add_ms(last_sent, p.timeout), ACK_DELAY);
            return ;
        }
        self.next_send_time = u64::MAX;
    }
}

/// Numbers never go back along a queue of states.
pub open spec fn in_order<S>(states: Seq<TimestampedState<S>>) -> bool {
    forall|i: int, j: int|
        0 <= i <= j < states.len() ==> #[trigger] states[i].num <= #[trigger] states[j].num
}

/// Every state in a queue is consistent.
pub open spec fn all_consistent<S: SyncState>(states: Seq<TimestampedState<S>>) -> bool {
    forall|i: int| 0 <= i < states.len() ==> (#[trigger] states[i]).state.consistent()
}

/// The first state from `i` on whose number is at least `num`, or the end.
pub open spec fn first_from<S>(states: Seq<TimestampedState<S>>, num: u64, i: int) -> int
    decreases states.len() - i,
{
    if i >= states.len() || states[i].num >= num {
        i
    } else {
        first_from(states, num, i + 1)
    }
}

/// Is there a state with the given number?
pub open spec fn holds_num<S>(states: Seq<TimestampedState<S>>, num: u64) -> bool {
    exists|i: int| 0 <= i < states.len() && (#[trigger] states[i]).num == num
}

/// Could an acknowledgement of a state that was sent then still be in flight?
pub open spec fn recent(timestamp: u64, now: u64, timeout: u64) -> bool {
    since(timestamp, now) < later(timeout, ACK_DELAY)
}

/// The last of the states behind `i` that were all sent recently.
pub open spec fn recent_run<S>(
    states: Seq<TimestampedState<S>>,
    now: u64,
    timeout: u64,
    i: int,
) -> int
    decreases states.len() - i,
{
    if 0 <= i && i + 1 < states.len() && recent(states[i + 1].timestamp, now, timeout) {
        recent_run(states, now, timeout, i + 1)
    } else {
        i
    }
}

/// Is it worth sending a diff from the state that the peer is known to hold, rather than
/// from the one it is assumed to hold? It costs nothing when it is no larger, and recovers
/// immediately if the assumption was wrong.
pub open spec fn worth_resending(resend: nat, proposed: nat) -> bool {
    resend <= proposed || (resend < 1000 && resend - proposed < 100)
}

/// The bytes that are left for a fragment in a datagram.
pub open spec fn room_for_fragment(mtu: nat) -> nat {
    let added = packet::ADDED_BYTES + crypto::ADDED_BYTES;
    if mtu <= added {
        0
    } else {
        (mtu - added) as nat
    }
}

/// Something that could not be sent.
#[derive(Debug, Clone, Copy, PartialEq, Eq, Structural)]
pub enum SendError {
    Fragment(FragmentError),
    /// There is no source of randomness to pad an instruction with.
    NoRandomness,
}

/// What a sender holds.
#[verifier::ext_equal]
#[verifier::reject_recursive_types(S)]
pub struct SenderView<S> {
    pub current: S,
    /// Oldest first. The front is the last acknowledged state; the back is the most
    /// recently sent.
    pub sent: Seq<TimestampedState<S>>,
    /// Which of them the peer is assumed to hold.
    pub assumed: int,
    pub fragmenter: FragmenterView,
    pub timing: Timing,
    pub shutdown: Shutdown,
    pub ack: Acknowledgment,
    pub verbose: u32,
}

impl<S: SyncState> SenderView<S> {
    /// A sender that has sent nothing: the peer is known to hold a copy of the initial
    /// state, under number zero.
    pub open spec fn initial(state: S, copy: S, now: u64) -> SenderView<S> {
        SenderView {
            current: state,
            sent: seq![TimestampedState { timestamp: now, num: 0, state: copy }],
            assumed: 0,
            fragmenter: FragmenterView::initial(),
            timing: Timing {
                next_ack_time: now,
                next_send_time: now,
                send_mindelay: 8,
                last_heard: 0,
                mindelay_clock: None,
            },
            shutdown: Shutdown { in_progress: false, tries: 0, start: 0 },
            ack: Acknowledgment { num: 0, pending_data: false },
            verbose: 0,
        }
    }

    pub open spec fn valid(self) -> bool {
        &&& 1 <= self.sent.len() <= MAX_SENT_STATES
        &&& 0 <= self.assumed < self.sent.len()
        &&& in_order(self.sent)
        &&& self.current.consistent()
        &&& all_consistent(self.sent)
    }

    /// With the shutdown begun, unless it has begun already.
    pub open spec fn shutdown_started(self, now: u64) -> SenderView<S> {
        if self.shutdown.in_progress {
            self
        } else {
            SenderView {
                shutdown: Shutdown { in_progress: true, start: now, ..self.shutdown },
                ..self
            }
        }
    }

    /// Has the shutdown gone unacknowledged for too many tries, or for too long?
    pub open spec fn shutdown_timed_out(self, now: u64) -> bool {
        self.shutdown.in_progress && (self.shutdown.tries >= SHUTDOWN_RETRIES || since(
            self.shutdown.start,
            now,
        ) >= ACTIVE_RETRY_TIMEOUT)
    }

    /// With another state sent. A queue that is too long is thinned from the middle: the
    /// oldest is the acknowledged baseline and the newest are the likely diff targets.
    pub open spec fn sent_added(self, timestamp: u64, num: u64, state: S) -> SenderView<S> {
        let longer = self.sent.push(TimestampedState { timestamp, num, state });
        if longer.len() > MAX_SENT_STATES {
            let victim = longer.len() - RECENT_STATES - 1;
            SenderView {
                sent: longer.remove(victim),
                assumed: if self.assumed >= victim && self.assumed > 0 {
                    self.assumed - 1
                } else {
                    self.assumed
                },
                ..self
            }
        } else {
            SenderView { sent: longer, ..self }
        }
    }

    /// With the states dropped that are older than one that was acknowledged. An
    /// acknowledgement of a state that is gone is ignored.
    pub open spec fn acknowledged(self, ack_num: u64) -> SenderView<S> {
        let sent = if holds_num(self.sent, ack_num) {
            self.sent.skip(first_from(self.sent, ack_num, 0))
        } else {
            self.sent
        };
        SenderView {
            sent,
            assumed: if self.assumed >= sent.len() {
                sent.len() - 1
            } else {
                self.assumed
            },
            ..self
        }
    }

    /// With the benefit of the doubt given to states that were sent recently.
    pub open spec fn assumption_updated(self, now: u64, timeout: u64) -> SenderView<S> {
        SenderView { assumed: recent_run(self.sent, now, timeout, 0), ..self }
    }

    /// Is `after` this sender with a prefix dropped from every state?
    pub open spec fn rationalized_by(self, known: S, after: SenderView<S>) -> bool {
        &&& S::subtracted(self.current, known, after.current)
        &&& after.sent.len() == self.sent.len()
        &&& forall|i: int|
            0 <= i < after.sent.len() ==> {
                let (a, b) = (self.sent[i], #[trigger] after.sent[i]);
                &&& b.timestamp == a.timestamp
                &&& b.num == a.num
                &&& S::subtracted(a.state, known, b.state)
            }
        &&& after == SenderView { current: after.current, sent: after.sent, ..self }
    }

    /// Is `after` this sender with the acknowledged prefix dropped from every state?
    pub open spec fn rationalized(self, after: SenderView<S>) -> bool {
        exists|known: S|
            known.is_snapshot_of(&self.sent[0].state) && #[trigger] self.rationalized_by(
                known,
                after,
            )
    }

    /// Should the shutdown handshake be hurried along?
    pub open spec fn hurry(self) -> bool {
        self.shutdown.in_progress || self.ack.num == SHUTDOWN_NUM
    }

    /// With the timers set, given how the current state differs from the sent ones.
    pub open spec fn scheduled(self, d: Differences, p: Pace) -> SenderView<S> {
        let last_sent = self.sent.last().timestamp;
        SenderView {
            timing: self.timing.ack_brought_forward(
                self.ack.pending_data,
                p.now,
            ).send_scheduled(d, last_sent, p).hurried(self.hurry(), last_sent, p),
            ..self
        }
    }

    /// Is this how the current state differs from the sent ones?
    pub open spec fn differences(self, d: Differences) -> bool {
        &&& self.current.found_same(&self.sent.last().state, !d.from_last)
        &&& self.current.found_same(&self.sent[self.assumed].state, !d.from_assumed)
        &&& self.current.found_same(&self.sent[0].state, !d.from_known)
    }

    /// Is `after` this sender with its assumption, its states and its timers brought up to
    /// date?
    pub open spec fn timed(self, p: Pace, after: SenderView<S>) -> bool {
        exists|mid: SenderView<S>, d: Differences|
            {
                &&& #[trigger] self.assumption_updated(p.now, p.timeout).rationalized(mid)
                &&& #[trigger] mid.differences(d)
                &&& after == mid.scheduled(d, p)
            }
    }

    /// The instruction that carries a diff.
    pub open spec fn instruction(self, diff: Seq<u8>, new_num: u64, chaff: Seq<u8>) ->
        InstructionView {
        InstructionView {
            protocol_version: Some(MOSH_PROTOCOL_VERSION),
            old_num: Some(self.sent[self.assumed].num),
            new_num: Some(new_num),
            ack_num: Some(self.ack.num),
            throwaway_num: Some(self.sent[0].num),
            diff: Some(diff),
            chaff: Some(chaff),
        }
    }

    /// With an instruction handed to the fragmenter.
    pub open spec fn fragmented(
        self,
        diff: Seq<u8>,
        new_num: u64,
        chaff: Seq<u8>,
        mtu: nat,
    ) -> SenderView<S> {
        SenderView {
            shutdown: Shutdown {
                tries: if new_num == SHUTDOWN_NUM && self.shutdown.tries < u32::MAX {
                    (self.shutdown.tries + 1) as u32
                } else {
                    self.shutdown.tries
                },
                ..self.shutdown
            },
            fragmenter: self.fragmenter.advanced(
                self.instruction(diff, new_num, chaff),
                contents_size(room_for_fragment(mtu)),
            ),
            ..self
        }
    }

    /// The fragments that carry a diff, as they go into datagrams.
    pub open spec fn pieces(
        self,
        diff: Seq<u8>,
        new_num: u64,
        chaff: Seq<u8>,
        mtu: nat,
    ) -> Result<Seq<FragmentView>, FragmentError> {
        let inst = self.instruction(diff, new_num, chaff);
        let size = contents_size(room_for_fragment(mtu));
        match zlib_deflated(Instruction::encoding(inst)) {
            None => Err(FragmentError::Malformed),
            Some(payload) => {
                let id = self.fragmenter.advanced(inst, size).next_instruction_id;
                let all = split(payload, size, id, 0);
                if all.len() > FINAL_BIT {
                    Err(FragmentError::TooManyFragments)
                } else {
                    Ok(all)
                }
            },
        }
    }

    /// With nothing left to acknowledge.
    pub open spec fn data_acked(self) -> SenderView<S> {
        SenderView { ack: Acknowledgment { pending_data: false, ..self.ack }, ..self }
    }

    /// With the timers set after something was sent.
    pub open spec fn rested(self, now: u64) -> SenderView<S> {
        SenderView {
            timing: Timing {
                next_ack_time: later(now, ACK_INTERVAL),
                next_send_time: u64::MAX,
                ..self.timing
            },
            ..self
        }
    }

    /// Without a clock for collecting input.
    pub open spec fn clock_cleared(self) -> SenderView<S> {
        SenderView { timing: Timing { mindelay_clock: None, ..self.timing }, ..self }
    }

    /// The number of a new state.
    pub open spec fn next_num(self) -> u64 {
        if self.shutdown.in_progress {
            SHUTDOWN_NUM
        } else {
            later(self.sent.last().num, 1)
        }
    }

    /// The number of the state that is sent, given whether it is the one that was sent
    /// last.
    pub open spec fn num_to_send(self, last_matches: bool) -> u64 {
        if !self.shutdown.in_progress && last_matches {
            self.sent.last().num
        } else {
            self.next_num()
        }
    }

    /// With the last state sent again.
    pub open spec fn last_touched(self, now: u64) -> SenderView<S> {
        SenderView {
            sent: self.sent.update(
                self.sent.len() - 1,
                TimestampedState { timestamp: now, ..self.sent.last() },
            ),
            ..self
        }
    }

    /// After an instruction was sent in fragments, and the payloads of their datagrams.
    pub open spec fn sent_in_fragments(
        self,
        diff: Seq<u8>,
        new_num: u64,
        chaff: Option<Seq<u8>>,
        mtu: nat,
    ) -> (SenderView<S>, Result<Seq<Seq<u8>>, SendError>) {
        match chaff {
            None => (self, Err(SendError::NoRandomness)),
            Some(c) => match self.pieces(diff, new_num, c, mtu) {
                Err(e) => (
                    self.fragmented(diff, new_num, c, mtu),
                    Err(SendError::Fragment(e)),
                ),
                Ok(pieces) => (
                    self.fragmented(diff, new_num, c, mtu).data_acked(),
                    Ok(payloads_of(pieces)),
                ),
            },
        }
    }

    /// After an acknowledgement without a diff was sent.
    pub open spec fn empty_acked(
        self,
        copy: S,
        chaff: Option<Seq<u8>>,
        now: u64,
        mtu: nat,
    ) -> (SenderView<S>, Result<Seq<Seq<u8>>, SendError>) {
        let num = self.next_num();
        let (w, r) = self.sent_added(now, num, copy).sent_in_fragments(
            Seq::empty(),
            num,
            chaff,
            mtu,
        );
        if r is Ok {
            (w.rested(now), r)
        } else {
            (w, r)
        }
    }

    /// After the current state was noted as sent, given whether it is the one that was
    /// sent last.
    pub open spec fn noted_as_sent(self, copy: S, last_matches: bool, now: u64) -> SenderView<S> {
        let num = self.num_to_send(last_matches);
        if num == self.sent.last().num {
            self.last_touched(now)
        } else {
            self.sent_added(now, num, copy)
        }
    }

    /// After a diff was sent, given whether the current state is the one that was sent
    /// last.
    pub open spec fn diff_sent(
        self,
        copy: S,
        last_matches: bool,
        diff: Seq<u8>,
        chaff: Option<Seq<u8>>,
        now: u64,
        mtu: nat,
    ) -> (SenderView<S>, Result<Seq<Seq<u8>>, SendError>) {
        let (w, r) = self.noted_as_sent(copy, last_matches, now).sent_in_fragments(
            diff,
            self.num_to_send(last_matches),
            chaff,
            mtu,
        );
        if r is Ok {
            (w.newest_assumed().rested(now), r)
        } else {
            (w, r)
        }
    }

    /// After there was nothing to send: an acknowledgement may still be due.
    pub open spec fn nothing_sent(
        self,
        copy: S,
        chaff: Option<Seq<u8>>,
        now: u64,
        mtu: nat,
    ) -> (SenderView<S>, Result<Seq<Seq<u8>>, SendError>) {
        let (w, r) = if now >= self.timing.next_ack_time {
            let (w, r) = self.empty_acked(copy, chaff, now, mtu);
            if r is Ok {
                (w.clock_cleared(), r)
            } else {
                (w, r)
            }
        } else {
            (self, Ok(Seq::empty()))
        };
        if r is Ok && now >= w.timing.next_send_time {
            (w.send_cancelled(), r)
        } else {
            (w, r)
        }
    }

    /// Without a send scheduled.
    pub open spec fn send_cancelled(self) -> SenderView<S> {
        SenderView {
            timing: Timing { next_send_time: u64::MAX, mindelay_clock: None, ..self.timing },
            ..self
        }
    }

    /// After a datagram was due, given the diff to send.
    pub open spec fn responded(
        self,
        copy: S,
        last_matches: bool,
        diff: Seq<u8>,
        chaff: Option<Seq<u8>>,
        now: u64,
        mtu: nat,
    ) -> (SenderView<S>, Result<Seq<Seq<u8>>, SendError>) {
        if diff.len() == 0 {
            self.nothing_sent(copy, chaff, now, mtu)
        } else if self.timing.due(now) {
            let (w, r) = self.diff_sent(copy, last_matches, diff, chaff, now, mtu);
            if r is Ok {
                (w.clock_cleared(), r)
            } else {
                (w, r)
            }
        } else {
            (self, Ok(Seq::empty()))
        }
    }

    /// Is a copy of the current state kept when a datagram is due?
    pub open spec fn copies(self, last_matches: bool, diff: Seq<u8>, now: u64) -> bool {
        if diff.len() == 0 {
            now >= self.timing.next_ack_time
        } else {
            self.timing.due(now) && self.num_to_send(last_matches) != self.sent.last().num
        }
    }

    /// Can responding with a diff lead to the given outcome?
    pub open spec fn response(
        self,
        diff: Seq<u8>,
        chaff: Option<Seq<u8>>,
        now: u64,
        mtu: nat,
        outcome: (SenderView<S>, Result<Seq<Seq<u8>>, SendError>),
    ) -> bool {
        exists|copy: S, last_matches: bool|
            {
                &&& self.copies(last_matches, diff, now) ==> copy.is_snapshot_of(&self.current)
                &&& self.current.found_same(&self.sent.last().state, last_matches)
                &&& outcome == #[trigger] self.responded(
                    copy,
                    last_matches,
                    diff,
                    chaff,
                    now,
                    mtu,
                )
            }
    }

    /// Can considering a diff from the known state lead to the given diff?
    pub open spec fn resend_considered(
        self,
        proposed: Seq<u8>,
        after: SenderView<S>,
        diff: Seq<u8>,
    ) -> bool {
        if self.assumed == 0 {
            after == self && diff == proposed
        } else {
            exists|resend: Seq<u8>|
                {
                    &&& #[trigger] self.current.is_diff(&self.sent[0].state, resend)
                    &&& if worth_resending(resend.len(), proposed.len()) {
                        after == (SenderView { assumed: 0, ..self }) && diff == resend
                    } else {
                        after == self && diff == proposed
                    }
                }
        }
    }

    /// Can the given diff be chosen to be sent?
    pub open spec fn diff_chosen(self, after: SenderView<S>, diff: Seq<u8>) -> bool {
        exists|proposed: Seq<u8>|
            {
                &&& #[trigger] self.current.is_diff(&self.sent[self.assumed].state, proposed)
                &&& self.resend_considered(proposed, after, diff)
            }
    }

    /// Can checking that a diff reproduces the current state lead to the given findings? A
    /// diff that cannot be applied reproduces nothing.
    pub open spec fn round_trip_checked(self, diff: Seq<u8>, found: RoundTrip) -> bool {
        if !S::readable(diff) {
            found.instruction_failed && !found.target_failed && found.report@.len() == 0
        } else {
            exists|copy: S, target: S, a: Seq<u8>, b: Seq<u8>|
                {
                    &&& copy.is_snapshot_of(&self.sent[self.assumed].state)
                    &&& #[trigger] S::applied(copy, diff, target)
                    &&& found.instruction_failed == self.current.differs(&target)
                    &&& #[trigger] self.current.is_init_diff(a)
                    &&& #[trigger] target.is_init_diff(b)
                    &&& found.target_failed == (a != b)
                    &&& self.current.reported(&target, views(found.report@))
                }
        }
    }

    /// Are these the findings about a diff that is sent? It is checked by a verbose sender
    /// only.
    pub open spec fn check_made(self, diff: Seq<u8>, check: Option<RoundTrip>) -> bool {
        match check {
            Some(found) => self.verbose != 0 && self.round_trip_checked(diff, found),
            None => self.verbose == 0,
        }
    }

    /// Can a tick lead to the given sender, payloads and findings?
    pub open spec fn ticked(
        self,
        p: Pace,
        attached: bool,
        mtu: nat,
        after: SenderView<S>,
        outcome: (Result<Seq<Seq<u8>>, SendError>, Option<RoundTrip>),
    ) -> bool {
        exists|mid: SenderView<S>|
            {
                &&& #[trigger] self.timed(p, mid)
                &&& if !attached || !mid.timing.due(p.now) {
                    after == mid && outcome == (
                        Ok::<Seq<Seq<u8>>, SendError>(Seq::empty()),
                        None::<RoundTrip>,
                    )
                } else {
                    exists|chosen: SenderView<S>, diff: Seq<u8>, chaff: Option<Seq<u8>>|
                        {
                            &&& #[trigger] mid.diff_chosen(chosen, diff)
                            &&& chaff matches Some(c) ==> c.len() <= CHAFF_MAX
                            &&& #[trigger] chosen.response(
                                diff,
                                chaff,
                                p.now,
                                mtu,
                                (after, outcome.0),
                            )
                            &&& chosen.check_made(diff, outcome.1)
                        }
                }
            }
    }

    /// With the peer assumed to hold the state that was sent last.
    pub open spec fn newest_assumed(self) -> SenderView<S> {
        SenderView { assumed: self.sent.len() - 1, ..self }
    }
}

/// The datagram payloads of fragments.
pub open spec fn payloads_of(pieces: Seq<FragmentView>) -> Seq<Seq<u8>> {
    pieces.map_values(|f: FragmentView| f.bytes()->Ok_0)
}

/// The payloads of a tick, or why there are none.
pub open spec fn payload_views(r: Result<Vec<Vec<u8>>, SendError>) -> Result<
    Seq<Seq<u8>>,
    SendError,
> {
    match r {
        Ok(v) => Ok(views(v@)),
        Err(e) => Err(e),
    }
}

/// The length of the padding that a random byte chooses.
pub fn chaff_len(b: u8) -> (n: usize)
    ensures
        n == b % 17,
        n <= CHAFF_MAX,
{
    (b % 17) as usize
}

/// The view of optional bytes.
pub open spec fn chaff_view(c: Option<Vec<u8>>) -> Option<Seq<u8>> {
    match c {
        Some(v) => Some(v@),
        None => None,
    }
}

/// What the check of a diff against the state it comes from found wrong. It would tell
/// the peer something that does not describe the state there is.
#[derive(Debug, Clone, PartialEq, Eq)]
pub struct RoundTrip {
    /// Applying the diff does not reproduce the current state.
    pub instruction_failed: bool,
    /// The reproduced state is not encoded as the current one is.
    pub target_failed: bool,
    /// How the reproduced state differs, line by line.
    pub report: Vec<String>,
}

/// What a tick made.
pub struct Tick {
    /// The payloads of the datagrams to send.
    pub payloads: Vec<Vec<u8>>,
    /// What the check of the diff found, if it was made.
    pub round_trip: Option<RoundTrip>,
}

/// A tick that could not send what was due.
#[derive(Debug, Clone, PartialEq, Eq)]
pub struct FailedTick {
    pub error: SendError,
    /// What the check of the diff found, if it was made.
    pub round_trip: Option<RoundTrip>,
}

/// The payloads of a tick, or why there are none, and what the check of the diff found.
pub open spec fn tick_views(r: Result<Tick, FailedTick>) -> (
    Result<Seq<Seq<u8>>, SendError>,
    Option<RoundTrip>,
) {
    match r {
        Ok(t) => (Ok(views(t.payloads@)), t.round_trip),
        Err(f) => (Err(f.error), f.round_trip),
    }
}

/// Sends one side's state, and keeps track of what the peer has of it.
pub struct TransportSender<S: SyncState> {
    current_state: S,
    sent_states: Vec<TimestampedState<S>>,
    assumed_receiver_state: usize,
    fragmenter: Fragmenter,
    pub timing: Timing,
    pub shutdown: Shutdown,
    pub ack: Acknowledgment,
    pub verbose: u32,
}

impl<S: SyncState> View for TransportSender<S> {
    type V = SenderView<S>;

    closed spec fn view(&self) -> SenderView<S> {
        SenderView {
            current: self.current_state,
            sent: self.sent_states@,
            assumed: self.assumed_receiver_state as int,
            fragmenter: self.fragmenter@,
            timing: self.timing,
            shutdown: self.shutdown,
            ack: self.ack,
            verbose: self.verbose,
        }
    }
}

impl<S: SyncState> TransportSender<S> {
    pub fn new(initial_state: S, now: u64) -> (s: Self)
        requires
            initial_state.consistent(),
        ensures
            s@.valid(),
            s@.sent.len() == 1,
            s@.sent[0].state.is_snapshot_of(&initial_state),
            s@ == SenderView::initial(initial_state, s@.sent[0].state, now),
    {
        let mut sent_states: Vec<TimestampedState<S>> = Vec::new();
        let state = initial_state.snapshot();
        sent_states.push(TimestampedState { timestamp: now, num: 0, state });
        TransportSender {
            current_state: initial_state,
            sent_states,
            assumed_receiver_state: 0,
            fragmenter: Fragmenter::new(),
            timing: Timing {
                next_ack_time: now,
                next_send_time: now,
                send_mindelay: 8,
                last_heard: 0,
                mindelay_clock: None,
            },
            shutdown: Shutdown { in_progress: false, tries: 0, start: 0 },
            ack: Acknowledgment { num: 0, pending_data: false },
            verbose: 0,
        }
    }

    pub fn current_state(&self) -> (s: &S)
        ensures
            *s == self@.current,
    {
        &self.current_state
    }

    /// The current state may be changed until the shutdown begins, and has to stay
    /// consistent.
    pub fn current_state_mut(&mut self) -> (s: &mut S)
        ensures
            *s == old(self)@.current,
            final(self)@ == (SenderView { current: *final(s), ..old(self)@ }),
            old(self)@.valid() && final(s).consistent() ==> final(self)@.valid(),
    {
        &mut self.current_state
    }

    pub fn set_current_state(&mut self, x: S)
        requires
            x.consistent(),
        ensures
            S::input_reset(x, final(self)@.current),
            final(self)@ == (SenderView { current: final(self)@.current, ..old(self)@ }),
            old(self)@.valid() ==> final(self)@.valid(),
    {
        let mut state = x;
        state.reset_input();
        self.current_state = state;
    }

    pub fn set_ack_num(&mut self, n: u64)
        ensures
            final(self)@ == (SenderView {
                ack: Acknowledgment { num: n, ..old(self)@.ack },
                ..old(self)@
            }),
            old(self)@.valid() ==> final(self)@.valid(),
    {
        self.ack.num = n;
    }

    pub fn set_data_ack(&mut self)
        ensures
            final(self)@ == (SenderView {
                ack: Acknowledgment { pending_data: true, ..old(self)@.ack },
                ..old(self)@
            }),
            old(self)@.valid() ==> final(self)@.valid(),
    {
        self.ack.pending_data = true;
    }

    pub fn remote_heard(&mut self, ts: u64)
        ensures
            final(self)@ == (SenderView {
                timing: Timing { last_heard: ts, ..old(self)@.timing },
                ..old(self)@
            }),
            old(self)@.valid() ==> final(self)@.valid(),
    {
        self.timing.last_heard = ts;
    }

    pub fn set_send_delay(&mut self, d: u64)
        ensures
            final(self)@ == (SenderView {
                timing: Timing { send_mindelay: d, ..old(self)@.timing },
                ..old(self)@
            }),
            old(self)@.valid() ==> final(self)@.valid(),
    {
        self.timing.send_mindelay = d;
    }

    pub fn start_shutdown(&mut self, now: u64)
        ensures
            final(self)@ == old(self)@.shutdown_started(now),
            old(self)@.valid() ==> final(self)@.valid(),
    {
        if !self.shutdown.in_progress {
            self.shutdown.start = now;
            self.shutdown.in_progress = true;
        }
    }

    pub fn shutdown_in_progress(&self) -> (b: bool)
        ensures
            b == self@.shutdown.in_progress,
    {
        self.shutdown.in_progress
    }

    pub fn shutdown_acknowledged(&self) -> (b: bool)
        requires
            self@.valid(),
        ensures
            b == (self@.sent[0].num == SHUTDOWN_NUM),
    {
        self.sent_states[0].num == SHUTDOWN_NUM
    }

    pub fn counterparty_shutdown_acknowledged(&self) -> (b: bool)
        ensures
            b == (self@.fragmenter.last_ack() == SHUTDOWN_NUM),
    {
        self.fragmenter.last_ack_sent() == SHUTDOWN_NUM
    }

    pub fn sent_state_acked_timestamp(&self) -> (t: u64)
        requires
            self@.valid(),
        ensures
            t == self@.sent[0].timestamp,
    {
        self.sent_states[0].timestamp
    }

    pub fn sent_state_acked(&self) -> (n: u64)
        requires
            self@.valid(),
        ensures
            n == self@.sent[0].num,
    {
        self.sent_states[0].num
    }

    pub fn sent_state_last(&self) -> (n: u64)
        requires
            self@.valid(),
        ensures
            n == self@.sent.last().num,
    {
        self.sent_states[self.sent_states.len() - 1].num
    }

    /// The sent states that are kept, oldest first.
    pub fn sent_states(&self) -> (s: &[TimestampedState<S>])
        ensures
            s@ == self@.sent,
    {
        self.sent_states.as_slice()
    }

    /// Which of the sent states the peer is assumed to hold.
    pub fn assumed_receiver_state(&self) -> (i: usize)
        ensures
            i == self@.assumed,
    {
        self.assumed_receiver_state
    }

    pub fn shutdown_ack_timed_out(&self, now: u64) -> (b: bool)
        ensures
            b == self@.shutdown_timed_out(now),
    {
        self.shutdown.in_progress && (self.shutdown.tries >= SHUTDOWN_RETRIES || (now
            >= self.shutdown.start && now - self.shutdown.start >= ACTIVE_RETRY_TIMEOUT))
    }

    /// The frame interval for half a round trip in milliseconds: roughly two frames per
    /// round trip, within the frame-rate limits.
    pub fn send_interval(&self, half_round_trip: i64) -> (ms: u64)
        ensures
            ms == if half_round_trip < SEND_INTERVAL_MIN {
                SEND_INTERVAL_MIN
            } else if half_round_trip > SEND_INTERVAL_MAX {
                SEND_INTERVAL_MAX
            } else {
                half_round_trip as u64
            },
    {
        if half_round_trip < SEND_INTERVAL_MIN as i64 {
            SEND_INTERVAL_MIN
        } else if half_round_trip > SEND_INTERVAL_MAX as i64 {
            SEND_INTERVAL_MAX
        } else {
            half_round_trip as u64
        }
    }

    /// Give the benefit of the doubt to states sent recently enough that an
    /// acknowledgement could still be in flight.
    pub fn update_assumed_receiver_state(&mut self, now: u64, timeout: u64)
        requires
            old(self)@.valid(),
        ensures
            final(self)@ == old(self)@.assumption_updated(now, timeout),
            final(self)@.valid(),
    {
        let limit = add_ms(timeout, ACK_DELAY);
        let ghost sent = self@.sent;
        let mut i: usize = 0;
        while i + 1 < self.sent_states.len()
            invariant
                sent == self@.sent,
                self@ == old(self)@,
                limit == later(timeout, ACK_DELAY),
                sent.len() <= MAX_SENT_STATES,
                i < sent.len(),
                recent_run(sent, now, timeout, 0) == recent_run(sent, now, timeout, i as int),
            ensures
                i < sent.len(),
                i == recent_run(sent, now, timeout, 0),
            decreases sent.len() - i,
        {
            let timestamp = self.sent_states[i + 1].timestamp;
            let age: u64 = if now >= timestamp {
                now - timestamp
            } else {
                0
            };
            if age >= limit {
                break ;
            }
            i = i + 1;
        }
        self.assumed_receiver_state = i;
    }

    /// Keep a state that was sent.
    pub fn add_sent_state(&mut self, timestamp: u64, num: u64, state: S)
        requires
            old(self)@.valid(),
            state.consistent(),
            num >= old(self)@.sent.last().num,
        ensures
            final(self)@ == old(self)@.sent_added(timestamp, num, state),
            final(self)@.valid(),
    {
        let ghost before = self@;
        self.sent_states.push(TimestampedState { timestamp, num, state });
        let ghost longer = self@.sent;
        assert(in_order(longer));
        if self.sent_states.len() > MAX_SENT_STATES {
            let victim: usize = self.sent_states.len() - RECENT_STATES - 1;
            self.sent_states.remove(victim);
            if self.assumed_receiver_state >= victim && self.assumed_receiver_state > 0 {
                self.assumed_receiver_state = self.assumed_receiver_state - 1;
            }
            assert forall|i: int, j: int| 0 <= i <= j < self@.sent.len() implies #[trigger]
                self@.sent[i].num <= #[trigger] self@.sent[j].num by {
                let a = if i < victim {
                    i
                } else {
                    i + 1
                };
                let b = if j < victim {
                    j
                } else {
                    j + 1
                };
                assert(longer[a].num <= longer[b].num);
            }
        }
    }

    /// Drop states the peer has acknowledged past.
    pub fn process_acknowledgment_through(&mut self, ack_num: u64)
        requires
            old(self)@.valid(),
        ensures
            final(self)@ == old(self)@.acknowledged(ack_num),
            final(self)@.valid(),
    {
        let ghost sent = self@.sent;
        let mut i: usize = 0;
        while i < self.sent_states.len() && self.sent_states[i].num < ack_num
            invariant
                sent == self@.sent,
                self@ == old(self)@,
                i <= sent.len(),
                first_from(sent, ack_num, 0) == first_from(sent, ack_num, i as int),
                forall|k: int| 0 <= k < i ==> (#[trigger] sent[k]).num < ack_num,
            decreases sent.len() - i,
        {
            i = i + 1;
        }
        assert(i == first_from(sent, ack_num, 0));
        let held = i < self.sent_states.len() && self.sent_states[i].num == ack_num;
        proof {
            if !held && holds_num(sent, ack_num) {
                let k = choose|k: int| 0 <= k < sent.len() && (#[trigger] sent[k]).num == ack_num;
                assert(sent[i as int].num <= sent[k].num);
            }
        }
        if held {
            assert(sent[i as int].num == ack_num);
            let kept = self.sent_states.split_off(i);
            self.sent_states = kept;
            assert(self@.sent =~= sent.skip(i as int));
        }
        if self.assumed_receiver_state >= self.sent_states.len() {
            self.assumed_receiver_state = self.sent_states.len() - 1;
        }
    }

    /// Drop the prefix every state shares, so diffs stay small.
    fn rationalize_states(&mut self)
        requires
            old(self)@.valid(),
        ensures
            old(self)@.rationalized(final(self)@),
            final(self)@.valid(),
    {
        let ghost before = self@;
        let known = self.sent_states[0].state.snapshot();
        self.current_state.subtract(&known);
        let mut i: usize = 0;
        while i < self.sent_states.len()
            invariant
                before.valid(),
                known.consistent(),
                i <= self@.sent.len(),
                self@.sent.len() == before.sent.len(),
                self@ == (SenderView {
                    current: self@.current,
                    sent: self@.sent,
                    ..before
                }),
                self@.current.consistent(),
                S::subtracted(before.current, known, self@.current),
                forall|k: int|
                    0 <= k < i ==> {
                        let (a, b) = (before.sent[k], #[trigger] self@.sent[k]);
                        &&& b.timestamp == a.timestamp
                        &&& b.num == a.num
                        &&& b.state.consistent()
                        &&& S::subtracted(a.state, known, b.state)
                    },
                forall|k: int|
                    i <= k < before.sent.len() ==> #[trigger] self@.sent[k] == before.sent[k],
            decreases self@.sent.len() - i,
        {
            self.sent_states[i].state.subtract(&known);
            i = i + 1;
        }
        assert(before.rationalized_by(known, self@));
        assert forall|a: int, b: int| 0 <= a <= b < self@.sent.len() implies #[trigger]
            self@.sent[a].num <= #[trigger] self@.sent[b].num by {
            assert(before.sent[a].num <= before.sent[b].num);
        }
    }

    /// How the current state differs from the sent ones.
    fn compare_states(&self) -> (d: Differences)
        requires
            self@.valid(),
        ensures
            self@.differences(d),
    {
        let last: usize = self.sent_states.len() - 1;
        let same_as_last = self.current_state.same_as(&self.sent_states[last].state);
        let same_as_assumed = self.current_state.same_as(
            &self.sent_states[self.assumed_receiver_state].state,
        );
        let same_as_known = self.current_state.same_as(&self.sent_states[0].state);
        Differences {
            from_last: !same_as_last,
            from_assumed: !same_as_assumed,
            from_known: !same_as_known,
        }
    }

    /// Set the timers, given how the current state differs from the sent ones.
    pub fn schedule(&mut self, d: &Differences, p: Pace)
        requires
            old(self)@.valid(),
        ensures
            final(self)@ == old(self)@.scheduled(*d, p),
            final(self)@.valid(),
    {
        let last_sent = self.sent_states[self.sent_states.len() - 1].timestamp;
        self.timing.bring_ack_forward(self.ack.pending_data, p.now);
        self.timing.schedule_send(d, last_sent, p);
        // Hurry the shutdown handshake along.
        if self.shutdown.in_progress || self.ack.num == SHUTDOWN_NUM {
            self.timing.next_ack_time = add_ms(last_sent, p.interval);
        }
    }

    /// Bring the assumption about the peer, the states and the timers up to date.
    pub fn calculate_timers(&mut self, p: Pace)
        requires
            old(self)@.valid(),
        ensures
            old(self)@.timed(p, final(self)@),
            final(self)@.valid(),
    {
        self.update_assumed_receiver_state(p.now, p.timeout);
        self.rationalize_states();
        let ghost mid = self@;
        let d = self.compare_states();
        self.schedule(&d, p);
        assert(old(self)@.assumption_updated(p.now, p.timeout).rationalized(mid));
        assert(mid.differences(d));
    }

    /// Milliseconds until something needs doing.
    pub fn wait_time(&mut self, p: Pace, attached: bool) -> (ms: u64)
        requires
            old(self)@.valid(),
        ensures
            old(self)@.timed(p, final(self)@),
            final(self)@.valid(),
            ms == if !attached {
                u64::MAX as int
            } else {
                since(p.now, final(self)@.timing.next_due())
            },
    {
        self.calculate_timers(p);
        if !attached {
            return u64::MAX;
        }
        let next: u64 = if self.timing.next_ack_time <= self.timing.next_send_time {
            self.timing.next_ack_time
        } else {
            self.timing.next_send_time
        };
        if next >= p.now {
            next - p.now
        } else {
            0
        }
    }

    /// Random padding, so an eavesdropper cannot read the instruction's length.
    pub fn make_chaff(&self) -> (r: Option<Vec<u8>>)
        ensures
            r matches Some(c) ==> c@.len() <= CHAFF_MAX,
    {
        match random_bytes(1) {
            Some(b) => random_bytes(chaff_len(b[0])),
            None => None,
        }
    }

    /// Consider diffing against the acknowledged state instead of the assumed one.
    ///
    /// Resending from a state the peer definitely has costs nothing when the diff is no
    /// larger, and recovers immediately if the assumption was wrong.
    pub fn attempt_prospective_resend_optimization(&mut self, proposed_diff: &mut Vec<u8>)
        requires
            old(self)@.valid(),
        ensures
            old(self)@.resend_considered(old(proposed_diff)@, final(self)@, final(proposed_diff)@),
            final(self)@.valid(),
    {
        if self.assumed_receiver_state == 0 {
            return ;
        }
        let resend_diff = self.current_state.diff_from(&self.sent_states[0].state);
        let (resend, proposed) = (resend_diff.len(), proposed_diff.len());
        assert(self@.current.is_diff(&self@.sent[0].state, resend_diff@));
        if resend <= proposed || (resend < 1000 && resend - proposed < 100) {
            self.assumed_receiver_state = 0;
            *proposed_diff = resend_diff;
        }
    }

    /// Check that applying a diff reproduces the current state.
    ///
    /// A mismatch means that the peer is about to be told something that does not describe
    /// the state there is, which would desynchronise the session silently.
    pub fn verify_round_trip(&self, diff: &[u8]) -> (r: RoundTrip)
        requires
            self@.valid(),
        ensures
            self@.round_trip_checked(diff@, r),
    {
        let mut target = self.sent_states[self.assumed_receiver_state].state.snapshot();
        let ghost copy = target;
        if target.apply_string(diff).is_err() {
            return RoundTrip {
                instruction_failed: true,
                target_failed: false,
                report: Vec::new(),
            };
        }
        assert(S::applied(copy, diff@, target));
        let instruction_failed = self.current_state.compare(&target);
        let report = self.current_state.report(&target);
        let a = self.current_state.init_diff();
        let b = target.init_diff();
        assert(self@.current.is_init_diff(a@));
        assert(target.is_init_diff(b@));
        let target_failed = !bytes_eq(a.as_slice(), b.as_slice());
        RoundTrip { instruction_failed, target_failed, report }
    }

    /// Send an instruction in fragments that fit in datagrams.
    fn send_in_fragments(
        &mut self,
        diff: Vec<u8>,
        new_num: u64,
        chaff: Option<Vec<u8>>,
        mtu: usize,
    ) -> (r: Result<Vec<Vec<u8>>, SendError>)
        requires
            old(self)@.valid(),
        ensures
            (final(self)@, payload_views(r)) == old(self)@.sent_in_fragments(
                diff@,
                new_num,
                chaff_view(chaff),
                mtu as nat,
            ),
            final(self)@.valid(),
    {
        let ghost before = self@;
        let chaff = match chaff {
            Some(chaff) => chaff,
            None => {
                return Err(SendError::NoRandomness);
            },
        };
        let inst = Instruction {
            protocol_version: Some(MOSH_PROTOCOL_VERSION),
            old_num: Some(self.sent_states[self.assumed_receiver_state].num),
            new_num: Some(new_num),
            ack_num: Some(self.ack.num),
            throwaway_num: Some(self.sent_states[0].num),
            diff: Some(diff),
            chaff: Some(chaff),
        };
        assert(inst@ == before.instruction(diff@, new_num, chaff@));
        if new_num == SHUTDOWN_NUM && self.shutdown.tries < u32::MAX {
            self.shutdown.tries = self.shutdown.tries + 1;
        }
        let added: usize = packet::ADDED_BYTES + crypto::ADDED_BYTES;
        let room: usize = if mtu <= added {
            0
        } else {
            mtu - added
        };
        let frags = match self.fragmenter.make_fragments(&inst, room) {
            Ok(frags) => frags,
            Err(e) => {
                return Err(SendError::Fragment(e));
            },
        };
        assert(self@ == before.fragmented(diff@, new_num, chaff@, mtu as nat));
        proof {
            let size = contents_size(room as nat);
            let payload = zlib_deflated(Instruction::encoding(inst@))->0;
            split_payloads_are_well_numbered(
                payload,
                size,
                before.fragmenter.advanced(inst@, size).next_instruction_id,
            );
            assert forall|k: int| 0 <= k < frags@.len() implies (#[trigger] frags@[k]).fragment_num
                < FINAL_BIT by {
                assert(views(frags@)[k] == frags@[k]@);
            }
        }
        let payloads = fragment_bytes(&frags);
        self.ack.pending_data = false;
        Ok(payloads)
    }

    /// Send an acknowledgement without a diff.
    fn send_empty_ack(&mut self, chaff: Option<Vec<u8>>, now: u64, mtu: usize) -> (r: Result<
        Vec<Vec<u8>>,
        SendError,
    >)
        requires
            old(self)@.valid(),
        ensures
            exists|copy: S|
                copy.is_snapshot_of(&old(self)@.current) && (final(self)@, payload_views(r))
                    == #[trigger] old(self)@.empty_acked(copy, chaff_view(chaff), now, mtu as nat),
            final(self)@.valid(),
    {
        let ghost before = self@;
        let new_num: u64 = if self.shutdown.in_progress {
            SHUTDOWN_NUM
        } else {
            add_ms(self.sent_states[self.sent_states.len() - 1].num, 1)
        };
        let copy = self.current_state.snapshot();
        self.add_sent_state(now, new_num, copy);
        let empty: Vec<u8> = Vec::new();
        assert(empty@ =~= Seq::<u8>::empty());
        let r = self.send_in_fragments(empty, new_num, chaff, mtu);
        if r.is_ok() {
            self.timing.next_ack_time = add_ms(now, ACK_INTERVAL);
            self.timing.next_send_time = u64::MAX;
        }
        assert((self@, payload_views(r)) == before.empty_acked(
            copy,
            chaff_view(chaff),
            now,
            mtu as nat,
        ));
        r
    }

    /// Note that the current state is being sent. Returns its number.
    fn note_as_sent(&mut self, last_matches: bool, now: u64) -> (new_num: u64)
        requires
            old(self)@.valid(),
        ensures
            new_num == old(self)@.num_to_send(last_matches),
            exists|copy: S|
                (new_num != old(self)@.sent.last().num ==> copy.is_snapshot_of(
                    &old(self)@.current,
                )) && final(self)@ == #[trigger] old(self)@.noted_as_sent(copy, last_matches, now),
            final(self)@.valid(),
    {
        let ghost before = self@;
        let last: usize = self.sent_states.len() - 1;
        let last_num = self.sent_states[last].num;
        let new_num: u64 = if self.shutdown.in_progress {
            SHUTDOWN_NUM
        } else if last_matches {
            last_num
        } else {
            add_ms(last_num, 1)
        };
        if new_num == last_num {
            self.sent_states[last].timestamp = now;
            assert(self@.sent =~= before.last_touched(now).sent);
            assert forall|a: int, b: int| 0 <= a <= b < self@.sent.len() implies #[trigger]
                self@.sent[a].num <= #[trigger] self@.sent[b].num by {
                assert(before.sent[a].num <= before.sent[b].num);
            }
            assert(self@ == before.noted_as_sent(before.current, last_matches, now));
        } else {
            let copy = self.current_state.snapshot();
            self.add_sent_state(now, new_num, copy);
            assert(self@ == before.noted_as_sent(copy, last_matches, now));
        }
        new_num
    }

    /// Respond to a datagram being due, with the given diff and padding.
    pub fn respond(&mut self, diff: Vec<u8>, chaff: Option<Vec<u8>>, now: u64, mtu: usize) -> (r:
        Result<Vec<Vec<u8>>, SendError>)
        requires
            old(self)@.valid(),
        ensures
            old(self)@.response(
                diff@,
                chaff_view(chaff),
                now,
                mtu as nat,
                (final(self)@, payload_views(r)),
            ),
            final(self)@.valid(),
    {
        let last: usize = self.sent_states.len() - 1;
        let last_matches = self.current_state.same_as(&self.sent_states[last].state);
        let r = self.respond_given(last_matches, diff, chaff, now, mtu);
        r
    }

    /// Respond to a datagram being due, given whether the current state is the one that
    /// was sent last.
    fn respond_given(
        &mut self,
        last_matches: bool,
        diff: Vec<u8>,
        chaff: Option<Vec<u8>>,
        now: u64,
        mtu: usize,
    ) -> (r: Result<Vec<Vec<u8>>, SendError>)
        requires
            old(self)@.valid(),
        ensures
            exists|copy: S|
                (old(self)@.copies(last_matches, diff@, now) ==> copy.is_snapshot_of(
                    &old(self)@.current,
                )) && (final(self)@, payload_views(r)) == #[trigger] old(self)@.responded(
                    copy,
                    last_matches,
                    diff@,
                    chaff_view(chaff),
                    now,
                    mtu as nat,
                ),
            final(self)@.valid(),
    {
        let ghost before = self@;
        let ghost chaff_bytes = chaff_view(chaff);
        if diff.len() == 0 {
            let r = self.send_nothing(chaff, now, mtu);
            proof {
                let copy = choose|copy: S|
                    (now >= before.timing.next_ack_time ==> copy.is_snapshot_of(&before.current))
                        && (self@, payload_views(r)) == #[trigger] before.nothing_sent(
                        copy,
                        chaff_bytes,
                        now,
                        mtu as nat,
                    );
                assert((self@, payload_views(r)) == before.responded(
                    copy,
                    last_matches,
                    diff@,
                    chaff_bytes,
                    now,
                    mtu as nat,
                ));
            }
            return r;
        }
        if now < self.timing.next_send_time && now < self.timing.next_ack_time {
            let r: Result<Vec<Vec<u8>>, SendError> = Ok(Vec::new());
            assert(payload_views(r)->Ok_0 =~= Seq::empty());
            assert((self@, payload_views(r)) == before.responded(
                before.current,
                last_matches,
                diff@,
                chaff_bytes,
                now,
                mtu as nat,
            ));
            return r;
        }
        let new_num = self.note_as_sent(last_matches, now);
        let ghost copy = choose|copy: S|
            (new_num != before.sent.last().num ==> copy.is_snapshot_of(&before.current)) && self@
                == #[trigger] before.noted_as_sent(copy, last_matches, now);
        let ghost diff_bytes = diff@;
        let r = self.send_in_fragments(diff, new_num, chaff, mtu);
        if r.is_ok() {
            self.assumed_receiver_state = self.sent_states.len() - 1;
            self.timing.next_ack_time = add_ms(now, ACK_INTERVAL);
            self.timing.next_send_time = u64::MAX;
            self.timing.mindelay_clock = None;
        }
        assert((self@, payload_views(r)) == before.responded(
            copy,
            last_matches,
            diff_bytes,
            chaff_bytes,
            now,
            mtu as nat,
        ));
        r
    }

    /// Respond to a datagram being due when there is nothing to send.
    fn send_nothing(&mut self, chaff: Option<Vec<u8>>, now: u64, mtu: usize) -> (r: Result<
        Vec<Vec<u8>>,
        SendError,
    >)
        requires
            old(self)@.valid(),
        ensures
            exists|copy: S|
                (now >= old(self)@.timing.next_ack_time ==> copy.is_snapshot_of(
                    &old(self)@.current,
                )) && (final(self)@, payload_views(r)) == #[trigger] old(self)@.nothing_sent(
                    copy,
                    chaff_view(chaff),
                    now,
                    mtu as nat,
                ),
            final(self)@.valid(),
    {
        let ghost before = self@;
        let ghost chaff_bytes = chaff_view(chaff);
        let mut payloads: Vec<Vec<u8>> = Vec::new();
        assert(views(payloads@) =~= Seq::empty());
        let ghost mut copy: S = self@.current;
        if now >= self.timing.next_ack_time {
            let r = self.send_empty_ack(chaff, now, mtu);
            proof {
                copy =
                choose|copy: S|
                    copy.is_snapshot_of(&before.current) && (self@, payload_views(r))
                        == #[trigger] before.empty_acked(copy, chaff_bytes, now, mtu as nat);
            }
            match r {
                Ok(p) => {
                    payloads = p;
                },
                Err(e) => {
                    let r: Result<Vec<Vec<u8>>, SendError> = Err(e);
                    assert((self@, payload_views(r)) == before.nothing_sent(
                        copy,
                        chaff_bytes,
                        now,
                        mtu as nat,
                    ));
                    return r;
                },
            }
            self.timing.mindelay_clock = None;
        }
        if now >= self.timing.next_send_time {
            self.timing.next_send_time = u64::MAX;
            self.timing.mindelay_clock = None;
        }
        let r: Result<Vec<Vec<u8>>, SendError> = Ok(payloads);
        assert((self@, payload_views(r)) == before.nothing_sent(
            copy,
            chaff_bytes,
            now,
            mtu as nat,
        ));
        r
    }

    /// The diff to send, from the assumed state or from the known one.
    fn choose_diff(&mut self) -> (diff: Vec<u8>)
        requires
            old(self)@.valid(),
        ensures
            old(self)@.diff_chosen(final(self)@, diff@),
            final(self)@.valid(),
    {
        let mut diff = self.current_state.diff_from(
            &self.sent_states[self.assumed_receiver_state].state,
        );
        let ghost proposed = diff@;
        assert(self@.current.is_diff(&self@.sent[self@.assumed].state, proposed));
        self.attempt_prospective_resend_optimization(&mut diff);
        diff
    }

    /// The payloads of the datagrams to send, if a diff or an acknowledgement is due.
    pub fn tick(&mut self, p: Pace, attached: bool, mtu: usize) -> (r: Result<Tick, FailedTick>)
        requires
            old(self)@.valid(),
        ensures
            old(self)@.ticked(p, attached, mtu as nat, final(self)@, tick_views(r)),
            final(self)@.valid(),
    {
        self.calculate_timers(p);
        let ghost mid = self@;
        if !attached || (p.now < self.timing.next_ack_time && p.now < self.timing.next_send_time) {
            let t = Tick { payloads: Vec::new(), round_trip: None };
            assert(views(t.payloads@) =~= Seq::empty());
            return Ok(t);
        }
        let diff = self.choose_diff();
        let ghost chosen = self@;
        let round_trip = if self.verbose != 0 {
            Some(self.verify_round_trip(diff.as_slice()))
        } else {
            None
        };
        let chaff = self.make_chaff();
        let ghost (diff_bytes, chaff_bytes) = (diff@, chaff_view(chaff));
        let r = self.respond(diff, chaff, p.now, mtu);
        assert(mid.diff_chosen(chosen, diff_bytes));
        assert(chosen.response(
            diff_bytes,
            chaff_bytes,
            p.now,
            mtu as nat,
            (self@, payload_views(r)),
        ));
        match r {
            Ok(payloads) => Ok(Tick { payloads, round_trip }),
            Err(error) => Err(FailedTick { error, round_trip }),
        }
    }
}

/// The payloads of the datagrams that fragments go into.
fn fragment_bytes(frags: &Vec<Fragment>) -> (payloads: Vec<Vec<u8>>)
    requires
        forall|k: int| 0 <= k < frags@.len() ==> (#[trigger] frags@[k]).fragment_num < FINAL_BIT,
    ensures
        views(payloads@) == payloads_of(views(frags@)),
{
    let mut payloads: Vec<Vec<u8>> = Vec::new();
    let mut i: usize = 0;
    assert(views(payloads@) =~= payloads_of(views(frags@)).subrange(0, 0));
    while i < frags.len()
        invariant
            forall|k: int|
                0 <= k < frags@.len() ==> (#[trigger] frags@[k]).fragment_num < FINAL_BIT,
            i <= frags@.len(),
            views(payloads@) == payloads_of(views(frags@)).subrange(0, i as int),
        decreases frags@.len() - i,
    {
        match frags[i].to_bytes() {
            Ok(bytes) => {
                payloads.push(bytes);
            },
            Err(_) => {
                assert(false);
            },
        }
        i = i + 1;
        assert(views(payloads@) =~= payloads_of(views(frags@)).subrange(0, i as int));
    }
    assert(payloads_of(views(frags@)).subrange(0, i as int) =~= payloads_of(views(frags@)));
    payloads
}

/// However many states are sent, the queue stays bounded, and it keeps both its ends: the
/// state that was acknowledged last and the one that was sent last.
pub proof fn the_sent_queue_keeps_its_ends<S: SyncState>(
    s: SenderView<S>,
    timestamp: u64,
    num: u64,
    state: S,
)
    requires
        s.valid(),
    ensures
        ({
            let after = s.sent_added(timestamp, num, state);
            &&& after.sent.len() <= MAX_SENT_STATES
            &&& after.sent[0] == s.sent[0]
            &&& after.sent.last() == (TimestampedState { timestamp, num, state })
            &&& 0 <= after.assumed < after.sent.len()
        }),
{
}

proof fn lemma_first_from<S>(states: Seq<TimestampedState<S>>, num: u64, i: int, k: int)
    requires
        0 <= i <= k < states.len(),
        states[k].num == num,
    ensures
        i <= first_from(states, num, i) <= k,
        states[first_from(states, num, i)].num >= num,
        forall|j: int| i <= j < first_from(states, num, i) ==> (#[trigger] states[j]).num < num,
    decreases k - i,
{
    if states[i].num < num {
        lemma_first_from(states, num, i + 1, k);
    }
}

/// An acknowledgement makes its state the oldest one that is kept, drops only older ones,
/// and keeps the newest; one of a state that is gone drops nothing.
pub proof fn acknowledgements_drop_older_states_only<S: SyncState>(s: SenderView<S>, num: u64)
    requires
        s.valid(),
    ensures
        ({
            let after = s.acknowledged(num);
            let dropped = s.sent.len() - after.sent.len();
            &&& 0 <= dropped < s.sent.len()
            &&& after.sent == s.sent.skip(dropped)
            &&& after.sent.last() == s.sent.last()
            &&& forall|i: int| 0 <= i < dropped ==> (#[trigger] s.sent[i]).num < num
            &&& if holds_num(s.sent, num) {
                after.sent[0].num == num
            } else {
                dropped == 0
            }
            &&& after.valid()
        }),
{
    if holds_num(s.sent, num) {
        let k = choose|k: int| 0 <= k < s.sent.len() && (#[trigger] s.sent[k]).num == num;
        lemma_first_from(s.sent, num, 0, k);
        let at = first_from(s.sent, num, 0);
        assert(s.sent[at].num <= s.sent[k].num);
    } else {
        assert(s.sent.skip(0) =~= s.sent);
    }
    let after = s.acknowledged(num);
    assert forall|i: int, j: int| 0 <= i <= j < after.sent.len() implies #[trigger] after.sent[i].num
        <= #[trigger] after.sent[j].num by {
        let d = s.sent.len() - after.sent.len();
        assert(after.sent[i] == s.sent[i + d] && after.sent[j] == s.sent[j + d]);
    }
    assert forall|i: int| 0 <= i < after.sent.len() implies (
    #[trigger] after.sent[i]).state.consistent() by {
        let d = s.sent.len() - after.sent.len();
        assert(after.sent[i] == s.sent[i + d]);
    }
}

proof fn lemma_recent_run<S>(states: Seq<TimestampedState<S>>, now: u64, timeout: u64, i: int)
    requires
        0 <= i < states.len(),
    ensures
        i <= recent_run(states, now, timeout, i) < states.len(),
        forall|k: int|
            i < k <= recent_run(states, now, timeout, i) ==> recent(
                (#[trigger] states[k]).timestamp,
                now,
                timeout,
            ),
    decreases states.len() - i,
{
    if i + 1 < states.len() && recent(states[i + 1].timestamp, now, timeout) {
        lemma_recent_run(states, now, timeout, i + 1);
    }
}

/// The peer is given the benefit of the doubt only for states sent so recently that an
/// acknowledgement could still be in flight; otherwise it is taken to hold what it
/// acknowledged.
pub proof fn assumptions_rest_on_recent_sends<S: SyncState>(
    s: SenderView<S>,
    now: u64,
    timeout: u64,
)
    requires
        s.valid(),
    ensures
        ({
            let after = s.assumption_updated(now, timeout);
            &&& after.valid()
            &&& after.sent == s.sent
            &&& forall|k: int|
                0 < k <= after.assumed ==> recent((#[trigger] s.sent[k]).timestamp, now, timeout)
        }),
{
    lemma_recent_run(s.sent, now, timeout, 0);
}

} // verus!
