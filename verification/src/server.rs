//! The server's decisions, from what arrives to what is done about it.
//!
//! The caller owns the sockets and the pty: it reports what it read and wrote, and does
//! what it is told.

use vstd::prelude::*;
use vstd::string::*;
use vstd::utf8::*;

use crate::complete::{Complete, CompleteView};
use crate::connection::since;
use crate::framebuffer::{clamp_size, window_dimension};
use crate::sender::{tick_views, FailedTick, Pace, SenderView, SyncState, Tick, SHUTDOWN_NUM};
use crate::transport::{Transport, TransportView};
use crate::user::{user_applied, UserEvent, UserStream};

verus! {

/// Give up if no client has ever connected within this long, in milliseconds.
pub const TIMEOUT_IF_NO_CLIENT: u64 = 60000;

/// Give up if a client connected and then vanished for this long, in milliseconds.
pub const TIMEOUT_IF_NO_CONTACT: u64 = 604_800_000;

/// What reading from the pty gave.
#[derive(Debug, Clone, PartialEq, Eq)]
pub enum HostRead {
    /// The end of what the child writes.
    End,
    Data(Vec<u8>),
    /// Nothing now.
    Retry,
    /// The pty slave closing surfaces as an error, which means the same as the end.
    Failed,
}

/// What writing to the pty gave.
#[derive(Debug, Clone, Copy, PartialEq, Eq, Structural)]
pub enum HostWrite {
    Written(usize),
    Retry,
    Failed,
}

/// Whether the session goes on.
#[derive(Debug, Clone, Copy, PartialEq, Eq, Structural)]
pub enum Verdict {
    Continue,
    /// The child is gone, and the client knows or does not answer.
    Finished,
    /// Nothing was heard for longer than the operator allows, in seconds.
    NetworkIdle(u64),
    NoClient,
    ClientVanished,
}

/// A screen that is being fed with what the user did, with what goes to the child and the
/// sizes that the pty takes on the way.
#[verifier::ext_equal]
pub struct Feed {
    pub screen: CompleteView,
    pub to_host: Seq<u8>,
    pub sizes: Seq<(i32, i32)>,
}

impl Feed {
    /// With a new size. What the terminal has to say about it goes to the child.
    pub open spec fn resized(self, width: i32, height: i32) -> Feed {
        let (w, h) = (window_dimension(width as int), window_dimension(height as int));
        Feed {
            screen: self.screen.resized(w, h).reply_taken(),
            to_host: self.to_host + encode_utf8(self.screen.terminal.dispatch.reply),
            sizes: self.sizes.push((w as i32, h as i32)),
        }
    }

    /// With the events from `i` on. Keystrokes go to the child, and to the screen only
    /// through the echo the child produces. Only the last of a run of resizes is acted on.
    pub open spec fn with_events(self, events: Seq<UserEvent>, i: int) -> Feed
        decreases events.len() - i,
    {
        if i < 0 || i >= events.len() {
            self
        } else {
            match events[i] {
                UserEvent::Byte(b) => Feed { to_host: self.to_host.push(b), ..self }.with_events(
                    events,
                    i + 1,
                ),
                UserEvent::Resize { width, height } => if i + 1 < events.len() && events[i + 1]
                    is Resize {
                    self.with_events(events, i + 1)
                } else {
                    self.resized(width, height).with_events(events, i + 1)
                },
            }
        }
    }
}

/// Feeds what the user did to the screen. Returns the sizes that the pty takes.
pub fn feed_events(us: &UserStream, screen: &mut Complete, to_host: &mut Vec<u8>) -> (sizes: Vec<
    (i32, i32),
>)
    requires
        old(screen).consistent(),
    ensures
        final(screen).consistent(),
        (Feed { screen: final(screen)@, to_host: final(to_host)@, sizes: sizes@ }) == (Feed {
            screen: old(screen)@,
            to_host: old(to_host)@,
            sizes: Seq::empty(),
        }).with_events(us@, 0),
{
    let mut sizes: Vec<(i32, i32)> = Vec::new();
    let ghost start = Feed { screen: screen@, to_host: to_host@, sizes: Seq::empty() };
    let mut i: usize = 0;
    assert(sizes@ =~= Seq::empty());
    while i < us.len()
        invariant
            i <= us@.len(),
            screen.consistent(),
            start == (Feed {
                screen: old(screen)@,
                to_host: old(to_host)@,
                sizes: Seq::empty(),
            }),
            start.with_events(us@, 0) == (Feed {
                screen: screen@,
                to_host: to_host@,
                sizes: sizes@,
            }).with_events(us@, i as int),
        decreases us@.len() - i,
    {
        let ghost feed = Feed { screen: screen@, to_host: to_host@, sizes: sizes@ };
        match us.get(i) {
            Some(UserEvent::Byte(b)) => {
                to_host.push(b);
            },
            Some(UserEvent::Resize { width, height }) => {
                let followed: bool = match us.get(i + 1) {
                    Some(UserEvent::Resize { width: _, height: _ }) => true,
                    _ => false,
                };
                if !followed {
                    // The size is the client's, so it can be zero, negative, or past what
                    // a window can have. The same numbers go to the pty and to the screen,
                    // or the two would disagree.
                    let (w, h) = clamp_size(width, height);
                    let reply = screen.act_resize(w, h);
                    to_host.extend_from_slice(reply.as_str().as_bytes());
                    sizes.push((w, h));
                    let ghost next = Feed { screen: screen@, to_host: to_host@, sizes: sizes@ };
                    assert(next.screen == feed.resized(width, height).screen);
                    assert(next.to_host =~= feed.resized(width, height).to_host);
                    assert(next.sizes =~= feed.resized(width, height).sizes);
                }
            },
            None => {},
        }
        i = i + 1;
    }
    sizes
}

/// The transport of a server.
pub type ServerTransport = Transport<Complete, UserStream>;

/// What the server holds.
#[verifier::ext_equal]
pub struct ServerView {
    pub transport: TransportView<Complete, UserStream>,
    /// Output that the pty could not accept yet.
    pub to_host: Seq<u8>,
    /// The number of the client's state that was last acted on.
    pub last_remote_num: u64,
    pub start: u64,
    /// Nothing more will come from the child.
    pub child_gone: bool,
    /// The child has exited. Something that it started may still hold the pty.
    pub child_reaped: bool,
    /// The state that carries colour queries which the client has not acknowledged yet,
    /// and the number of the last of them.
    pub queries_in_flight: Option<(u64, u32)>,
    /// The longest time without word from the client, in milliseconds.
    pub network_timeout: Option<u64>,
}

/// Is `after` a transport with its screen changed, and nothing else?
pub open spec fn screen_changed(
    before: TransportView<Complete, UserStream>,
    screen: CompleteView,
    after: TransportView<Complete, UserStream>,
) -> bool {
    &&& after == TransportView {
        sender: SenderView { current: after.sender.current, ..before.sender },
        ..before
    }
    &&& after.sender.current@ == screen
}

impl ServerView {
    /// The screen.
    pub open spec fn screen(self) -> CompleteView {
        self.transport.sender.current@
    }

    /// Is the session being shut down? Its screen does not change any more.
    pub open spec fn shutting_down(self) -> bool {
        self.transport.sender.shutdown.in_progress
    }

    /// Has the client done something that was not acted on?
    pub open spec fn has_user_input(self) -> bool {
        self.transport.received.last().num != self.last_remote_num && !self.shutting_down()
    }

    /// What becomes of the screen and the pty when the client's diff is acted on.
    pub open spec fn fed(self, diff: Seq<u8>, now: u64) -> Feed {
        let start = Feed { screen: self.screen(), to_host: self.to_host, sizes: Seq::empty() };
        match user_applied(Seq::empty(), diff) {
            None => start,
            Some(events) => {
                let feed = start.with_events(events, 0);
                if events.len() > 0 {
                    Feed {
                        screen: CompleteView {
                            input_history: feed.screen.input_history.push(
                                (self.transport.received.last().num, now),
                            ),
                            ..feed.screen
                        },
                        ..feed
                    }
                } else {
                    feed
                }
            },
        }
    }

    /// Can acting on what the client did lead to the given state and sizes?
    pub open spec fn user_input_taken(
        self,
        now: u64,
        after: ServerView,
        sizes: Seq<(i32, i32)>,
    ) -> bool {
        if !self.has_user_input() {
            after == self && sizes.len() == 0
        } else {
            exists|mid: TransportView<Complete, UserStream>, diff: Seq<u8>|
                {
                    &&& #[trigger] self.transport.remote_handed_out(mid, diff)
                    &&& screen_changed(mid, self.fed(diff, now).screen, after.transport)
                    &&& sizes == self.fed(diff, now).sizes
                    &&& after == ServerView {
                        transport: after.transport,
                        to_host: self.fed(diff, now).to_host,
                        last_remote_num: self.transport.received.last().num,
                        ..self
                    }
                }
        }
    }

    /// Is there anything to read from the pty for?
    pub open spec fn reads_host(self) -> bool {
        !self.child_gone && !self.shutting_down()
    }

    /// Can what was read from the pty lead to the given state?
    pub open spec fn host_output_taken(self, read: HostRead, after: ServerView) -> bool {
        match read {
            HostRead::End => after == ServerView { child_gone: true, ..self },
            HostRead::Failed => after == ServerView { child_gone: true, ..self },
            HostRead::Retry => after == self,
            HostRead::Data(bytes) => {
                let fed = self.screen().fed(bytes@);
                &&& screen_changed(self.transport, fed.reply_taken(), after.transport)
                &&& after == ServerView {
                    transport: after.transport,
                    to_host: self.to_host + encode_utf8(fed.terminal.dispatch.reply),
                    ..self
                }
            },
        }
    }

    /// After writing to the pty.
    pub open spec fn host_written(self, w: HostWrite) -> ServerView {
        match w {
            HostWrite::Written(n) => ServerView {
                to_host: if n <= self.to_host.len() {
                    self.to_host.skip(n as int)
                } else {
                    Seq::empty()
                },
                ..self
            },
            HostWrite::Retry => self,
            HostWrite::Failed => ServerView { child_gone: true, ..self },
        }
    }

    /// With the queries noted that a new state carries. They stay on the screen until the
    /// client has acknowledged that state, so that neither a later batch of output nor a
    /// lost packet can strand the application that waits for a reply.
    pub open spec fn queries_noted(self, last_before: u64) -> ServerView {
        let screen = self.screen().terminal.screen;
        let last = self.transport.sender.sent.last().num;
        if self.queries_in_flight is None && last != last_before && screen.color_queries.len()
            > 0 {
            ServerView { queries_in_flight: Some((last, screen.color_query_seq)), ..self }
        } else {
            self
        }
    }

    /// Are the noted queries acknowledged?
    pub open spec fn queries_acknowledged(self) -> bool {
        self.queries_in_flight matches Some((num, _)) && self.transport.sender.sent[0].num >= num
    }

    /// Can retiring acknowledged queries lead to the given state? Queries that came after
    /// the noted ones are kept.
    pub open spec fn queries_retired(self, after: ServerView) -> bool {
        if !self.queries_acknowledged() {
            after == self
        } else {
            let (_, seq) = self.queries_in_flight->0;
            let screen = self.screen();
            &&& if screen.terminal.screen.color_query_seq == seq {
                screen_changed(self.transport, screen.queries_cleared(), after.transport)
            } else {
                after.transport == self.transport
            }
            &&& after == ServerView {
                transport: after.transport,
                queries_in_flight: None,
                ..self
            }
        }
    }

    /// After the child was looked for. Its exit alone does not end the session: output it
    /// wrote just before may still be in the pty. Nor is the end of its output waited for
    /// forever: something that it started may hold the pty.
    pub open spec fn child_looked_for(self, exited: bool, drained: bool, now: u64) -> ServerView {
        let reaped = self.child_reaped || exited;
        let gone = self.child_gone || (reaped && !drained);
        ServerView {
            child_reaped: reaped,
            child_gone: gone,
            transport: if gone {
                TransportView {
                    sender: self.transport.sender.shutdown_started(now),
                    ..self.transport
                }
            } else {
                self.transport
            },
            ..self
        }
    }

    /// Whether the session goes on.
    pub open spec fn verdict(self, now: u64) -> Verdict {
        let idle = since(self.transport.received.last().timestamp, now);
        if self.child_gone && (self.transport.sender.sent[0].num == SHUTDOWN_NUM
            || self.transport.sender.shutdown_timed_out(now)) {
            Verdict::Finished
        } else if self.network_timeout matches Some(limit) && idle >= limit {
            Verdict::NetworkIdle((idle / 1000) as u64)
        } else if self.transport.received.last().num == 0 && since(self.start, now)
            >= TIMEOUT_IF_NO_CLIENT {
            Verdict::NoClient
        } else if idle >= TIMEOUT_IF_NO_CONTACT {
            Verdict::ClientVanished
        } else {
            Verdict::Continue
        }
    }
}

/// A server's side of a session.
pub struct Server {
    transport: ServerTransport,
    to_host: Vec<u8>,
    last_remote_num: u64,
    start: u64,
    child_gone: bool,
    child_reaped: bool,
    queries_in_flight: Option<(u64, u32)>,
    network_timeout: Option<u64>,
}

impl View for Server {
    type V = ServerView;

    closed spec fn view(&self) -> ServerView {
        ServerView {
            transport: self.transport@,
            to_host: self.to_host@,
            last_remote_num: self.last_remote_num,
            start: self.start,
            child_gone: self.child_gone,
            child_reaped: self.child_reaped,
            queries_in_flight: self.queries_in_flight,
            network_timeout: self.network_timeout,
        }
    }
}

impl Server {
    /// The transport is well formed.
    pub closed spec fn well_formed(&self) -> bool {
        self.transport.well_formed()
    }

    /// What is well formed has a valid transport.
    pub proof fn lemma_well_formed(&self)
        requires
            self.well_formed(),
        ensures
            self@.transport.valid(),
    {
        self.transport.lemma_well_formed();
    }

    /// A server that has just started.
    pub fn new(transport: ServerTransport, network_timeout: Option<u64>, now: u64) -> (s: Self)
        requires
            transport.well_formed(),
        ensures
            s.well_formed(),
            s@ == (ServerView {
                transport: transport@,
                to_host: Seq::empty(),
                last_remote_num: transport@.received.last().num,
                start: now,
                child_gone: false,
                child_reaped: false,
                queries_in_flight: None,
                network_timeout,
            }),
    {
        let last_remote_num = transport.remote_state_num();
        let s = Server {
            transport,
            to_host: Vec::new(),
            last_remote_num,
            start: now,
            child_gone: false,
            child_reaped: false,
            queries_in_flight: None,
            network_timeout,
        };
        assert(s.to_host@ =~= Seq::empty());
        s
    }

    /// The transport, which the caller receives and sends with.
    pub fn transport_mut(&mut self) -> (t: &mut ServerTransport)
        ensures
            t@ == old(self)@.transport,
            old(self).well_formed() == t.well_formed(),
            final(self)@ == (ServerView { transport: final(t)@, ..old(self)@ }),
            final(t).well_formed() ==> final(self).well_formed(),
    {
        &mut self.transport
    }

    /// Act on what the client did, if anything is new. Returns the sizes that the pty
    /// takes, the last of them to stay.
    pub fn take_user_input(&mut self, now: u64) -> (sizes: Vec<(i32, i32)>)
        requires
            old(self).well_formed(),
        ensures
            old(self)@.user_input_taken(now, final(self)@, sizes@),
            final(self).well_formed(),
    {
        let ghost before = self@;
        let num = self.transport.remote_state_num();
        if num == self.last_remote_num || self.transport.shutdown_in_progress() {
            return Vec::new();
        }
        self.last_remote_num = num;
        let diff = self.transport.get_remote_diff();
        let ghost mid = self.transport@;
        proof {
            self.transport.lemma_well_formed();
        }
        let mut us = UserStream::new();
        let ghost fed = before.fed(diff@, now);
        assert(mid.sender.current == before.transport.sender.current);
        if us.apply_string(diff.as_slice()).is_err() {
            let sizes: Vec<(i32, i32)> = Vec::new();
            assert(sizes@ =~= fed.sizes);
            assert(before.transport.remote_handed_out(mid, diff@));
            return sizes;
        }
        assert(Seq::<UserEvent>::empty() + us@ =~= us@);
        let screen = self.transport.current_state_mut();
        let sizes = feed_events(&us, screen, &mut self.to_host);
        if !us.is_empty() {
            screen.register_input_frame(num, now);
        }
        assert(before.transport.remote_handed_out(mid, diff@));
        sizes
    }

    /// Will nothing more come from the child?
    pub fn child_is_gone(&self) -> (b: bool)
        ensures
            b == self@.child_gone,
    {
        self.child_gone
    }

    /// Is there anything to read from the pty for?
    pub fn reads_host(&self) -> (b: bool)
        ensures
            b == self@.reads_host(),
    {
        !self.child_gone && !self.transport.shutdown_in_progress()
    }

    /// Act on what was read from the pty. Returns whether it gave anything.
    pub fn take_host_output(&mut self, read: HostRead) -> (drained: bool)
        requires
            old(self).well_formed(),
        ensures
            old(self)@.host_output_taken(read, final(self)@),
            drained == (read is Data),
            final(self).well_formed(),
    {
        match read {
            HostRead::End => {
                self.child_gone = true;
                return false;
            },
            HostRead::Failed => {
                self.child_gone = true;
                return false;
            },
            HostRead::Retry => {
                return false;
            },
            HostRead::Data(bytes) => {
                let ghost before = self@;
                proof {
                    self.transport.lemma_well_formed();
                }
                let screen = self.transport.current_state_mut();
                let reply = screen.act(bytes.as_slice());
                self.to_host.extend_from_slice(reply.as_str().as_bytes());
                assert(self@.to_host =~= before.to_host + encode_utf8(
                    before.screen().fed(bytes@).terminal.dispatch.reply,
                ));
                return true;
            },
        }
    }

    /// What is to be written to the pty. Nothing is once the child is gone.
    pub fn pending_to_host(&self) -> (bytes: &[u8])
        ensures
            bytes@ == if self@.child_gone {
                Seq::empty()
            } else {
                self@.to_host
            },
    {
        if self.child_gone {
            return vstd::slice::slice_subrange(self.to_host.as_slice(), 0, 0);
        }
        self.to_host.as_slice()
    }

    /// Take note of what was written to the pty.
    pub fn note_host_write(&mut self, w: HostWrite)
        ensures
            final(self)@ == old(self)@.host_written(w),
            old(self).well_formed() ==> final(self).well_formed(),
    {
        match w {
            HostWrite::Written(n) => {
                if n <= self.to_host.len() {
                    let ghost before = self.to_host@;
                    self.to_host = self.to_host.split_off(n);
                    assert(self.to_host@ =~= before.skip(n as int));
                } else {
                    self.to_host.clear();
                }
            },
            HostWrite::Retry => {},
            HostWrite::Failed => {
                self.child_gone = true;
            },
        }
    }

    /// Late echo acknowledgement, so the client can retire its predictions. Frozen once
    /// the shutdown starts, like every other change to the screen.
    pub fn advance_echo(&mut self, now: u64)
        requires
            old(self).well_formed(),
        ensures
            final(self).well_formed(),
            if old(self)@.shutting_down() {
                final(self)@ == old(self)@
            } else {
                &&& screen_changed(
                    old(self)@.transport,
                    old(self)@.screen().echo_advanced(now),
                    final(self)@.transport,
                )
                &&& final(self)@ == (ServerView {
                    transport: final(self)@.transport,
                    ..old(self)@
                })
            },
    {
        if self.transport.shutdown_in_progress() {
            return ;
        }
        proof {
            self.transport.lemma_well_formed();
        }
        let screen = self.transport.current_state_mut();
        screen.set_echo_ack(now);
    }

    /// The payloads of the datagrams that are due, with the colour queries noted that they
    /// carry.
    pub fn tick(&mut self, p: Pace) -> (r: Result<Tick, FailedTick>)
        requires
            old(self).well_formed(),
        ensures
            final(self).well_formed(),
            exists|mid: ServerView|
                {
                    &&& old(self)@.transport.sender.ticked(
                        p,
                        old(self)@.transport.connection.attached,
                        old(self)@.transport.connection.mtu as nat,
                        mid.transport.sender,
                        tick_views(r),
                    )
                    &&& mid == (ServerView {
                        transport: TransportView {
                            sender: mid.transport.sender,
                            ..old(self)@.transport
                        },
                        ..old(self)@
                    })
                    &&& #[trigger] mid.queries_noted(
                        old(self)@.transport.sender.sent.last().num,
                    ).queries_retired(final(self)@)
                },
    {
        let last_before = self.transport.sent_state_last();
        let r = self.transport.tick(p);
        let ghost mid = self@;
        self.note_queries(last_before);
        self.retire_queries();
        assert(mid.queries_noted(last_before).queries_retired(self@));
        r
    }

    fn note_queries(&mut self, last_before: u64)
        requires
            old(self).well_formed(),
        ensures
            final(self)@ == old(self)@.queries_noted(last_before),
            final(self).well_formed(),
    {
        let last = self.transport.sent_state_last();
        if self.queries_in_flight.is_none() && last != last_before {
            let fb = self.transport.current_state().fb();
            if !fb.color_queries().is_empty() {
                self.queries_in_flight = Some((last, fb.color_query_seq()));
            }
        }
    }

    fn retire_queries(&mut self)
        requires
            old(self).well_formed(),
        ensures
            old(self)@.queries_retired(final(self)@),
            final(self).well_formed(),
    {
        if let Some((num, seq)) = self.queries_in_flight {
            if self.transport.sent_state_acked() >= num {
                proof {
                    self.transport.lemma_well_formed();
                }
                if self.transport.current_state().fb().color_query_seq() == seq {
                    let screen = self.transport.current_state_mut();
                    screen.clear_color_queries();
                }
                self.queries_in_flight = None;
            }
        }
    }

    /// Take note of whether the child has exited, and of whether the pty gave anything
    /// this time round. Once nothing more will come, the session is shut down.
    pub fn look_for_child(&mut self, exited: bool, drained: bool, now: u64)
        requires
            old(self).well_formed(),
        ensures
            final(self)@ == old(self)@.child_looked_for(exited, drained, now),
            final(self).well_formed(),
    {
        if exited {
            self.child_reaped = true;
        }
        if self.child_reaped && !drained {
            self.child_gone = true;
        }
        if self.child_gone {
            self.transport.start_shutdown(now);
        }
    }

    /// Whether the session goes on.
    pub fn verdict(&self, now: u64) -> (v: Verdict)
        requires
            self.well_formed(),
        ensures
            v == self@.verdict(now),
    {
        if self.child_gone && (self.transport.shutdown_acknowledged()
            || self.transport.shutdown_ack_timed_out(now)) {
            return Verdict::Finished;
        }
        let idle = elapsed(self.transport.get_remote_state_timestamp(), now);
        if let Some(limit) = self.network_timeout {
            if idle >= limit {
                return Verdict::NetworkIdle(idle / 1000);
            }
        }
        if self.transport.remote_state_num() == 0 && elapsed(self.start, now)
            >= TIMEOUT_IF_NO_CLIENT {
            return Verdict::NoClient;
        }
        if idle >= TIMEOUT_IF_NO_CONTACT {
            return Verdict::ClientVanished;
        }
        Verdict::Continue
    }
}

fn elapsed(then: u64, now: u64) -> (ms: u64)
    ensures
        ms == since(then, now),
{
    if now >= then {
        now - then
    } else {
        0
    }
}

} // verus!
