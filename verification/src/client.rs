//! The client's decisions: what to draw, what to send, and when to leave.
//!
//! The caller owns the sockets and the terminal: it hands in what was typed and received,
//! and writes what it is given.

use std::rc::Rc;
use vstd::prelude::*;
use vstd::string::*;

use crate::complete::Complete;
use crate::connection::since;
use crate::display::{frame_text, Display, DisplayView};
use crate::draw_state::MAX_DIMENSION;
use crate::framebuffer::{Framebuffer, Screen};
use crate::opts::str_view;
use crate::prediction::{
    DisplayPreference, EngineView, Frames, Preferences, PredictionEngine, Triggers,
};
use crate::sender::{
    tick_views, FailedTick, Pace, SenderView, Shutdown, SyncState, Tick, Timing, SHUTDOWN_NUM,
};
use crate::text::{chars_of, text_eq};
use crate::transport::{Transport, TransportView};
use crate::user::{UserEvent, UserStream};
use crate::views::{group_views, views};
use crate::widths::Widths;
use crate::words::{read_unsigned, unsigned_in};

verus! {

broadcast use group_views;

pub const USAGE: &'static str = "Usage: mosh-client [-# ARGS] IP PORT";

/// What the client was asked for.
#[derive(Debug, Clone, PartialEq, Eq)]
pub enum ClientArgs {
    Help,
    Version,
    Connect { ip: String, port: u16 },
    BadUsage,
}

/// What the client was asked for.
pub enum ClientArgsView {
    Help,
    Version,
    Connect { ip: Seq<char>, port: nat },
    BadUsage,
}

impl View for ClientArgs {
    type V = ClientArgsView;

    open spec fn view(&self) -> ClientArgsView {
        match *self {
            ClientArgs::Help => ClientArgsView::Help,
            ClientArgs::Version => ClientArgsView::Version,
            ClientArgs::Connect { ip, port } => ClientArgsView::Connect {
                ip: ip@,
                port: port as nat,
            },
            ClientArgs::BadUsage => ClientArgsView::BadUsage,
        }
    }
}

/// The arguments that are not options.
pub open spec fn plain_arguments(args: Seq<Seq<char>>) -> Seq<Seq<char>>
    decreases args.len(),
{
    if args.len() == 0 {
        Seq::empty()
    } else if args.last().len() > 0 && args.last()[0] == '-' {
        plain_arguments(args.drop_last())
    } else {
        plain_arguments(args.drop_last()).push(args.last())
    }
}

/// What the client was asked for.
pub open spec fn client_asked(argv: Seq<Seq<char>>) -> ClientArgsView {
    if argv.contains("--help"@) || argv.contains("-h"@) {
        ClientArgsView::Help
    } else if argv.contains("--version"@) {
        ClientArgsView::Version
    } else {
        let plain = plain_arguments(
            if argv.len() > 0 {
                argv.skip(1)
            } else {
                argv
            },
        );
        if plain.len() < 2 {
            ClientArgsView::BadUsage
        } else {
            match unsigned_in(plain[1], 65535) {
                Some(port) => ClientArgsView::Connect { ip: plain[0], port },
                None => ClientArgsView::BadUsage,
            }
        }
    }
}

fn has_argument(argv: &[String], arg: &str) -> (b: bool)
    ensures
        b == views(argv@).contains(arg@),
{
    let ghost all = views(argv@);
    let mut i: usize = 0;
    while i < argv.len()
        invariant
            all == views(argv@),
            i <= all.len(),
            forall|k: int| 0 <= k < i ==> #[trigger] all[k] != arg@,
        decreases all.len() - i,
    {
        assert(all[i as int] == argv@[i as int]@);
        if text_eq(argv[i].as_str(), arg) {
            return true;
        }
        i = i + 1;
    }
    false
}

/// Read the client's arguments.
pub fn client_args(argv: &[String]) -> (r: ClientArgs)
    ensures
        r@ == client_asked(views(argv@)),
{
    if has_argument(argv, "--help") || has_argument(argv, "-h") {
        return ClientArgs::Help;
    }
    if has_argument(argv, "--version") {
        return ClientArgs::Version;
    }
    let ghost rest = if argv@.len() > 0 {
        views(argv@).skip(1)
    } else {
        views(argv@)
    };
    let start: usize = if argv.len() > 0 {
        1
    } else {
        0
    };
    let mut plain: Vec<String> = Vec::new();
    let mut i: usize = start;
    assert(rest.subrange(0, 0) =~= Seq::empty());
    assert(views(plain@) =~= Seq::empty());
    while i < argv.len()
        invariant
            start <= i <= argv@.len(),
            start <= 1,
            rest.len() == argv@.len() - start,
            forall|k: int| 0 <= k < rest.len() ==> #[trigger] rest[k] == argv@[k + start]@,
            views(plain@) == plain_arguments(rest.subrange(0, i - start)),
        decreases argv@.len() - i,
    {
        let ghost next = rest.subrange(0, i - start + 1);
        assert(next.drop_last() =~= rest.subrange(0, i - start));
        assert(next.last() == argv@[i as int]@);
        let chars = chars_of(argv[i].as_str());
        if !(chars.len() > 0 && chars[0] == '-') {
            plain.push(argv[i].clone());
        }
        i = i + 1;
    }
    assert(rest.subrange(0, i - start) =~= rest);
    if plain.len() < 2 {
        return ClientArgs::BadUsage;
    }
    assert(views(plain@)[0] == plain@[0]@);
    assert(views(plain@)[1] == plain@[1]@);
    match read_unsigned(plain[1].as_str(), 65535) {
        Some(port) => ClientArgs::Connect { ip: plain[0].clone(), port: port as u16 },
        None => ClientArgs::BadUsage,
    }
}

/// When predictions are shown.
pub open spec fn preference_named(s: Option<Seq<char>>) -> DisplayPreference {
    if s == Some("always"@) {
        DisplayPreference::Always
    } else if s == Some("never"@) {
        DisplayPreference::Never
    } else if s == Some("experimental"@) {
        DisplayPreference::Experimental
    } else {
        DisplayPreference::Adaptive
    }
}

/// When predictions are shown, by the value of `MOSH_PREDICTION_DISPLAY`.
pub fn display_preference(s: Option<&str>) -> (p: DisplayPreference)
    ensures
        p == preference_named(str_view(s)),
{
    match s {
        Some(s) => {
            if text_eq(s, "always") {
                DisplayPreference::Always
            } else if text_eq(s, "never") {
                DisplayPreference::Never
            } else if text_eq(s, "experimental") {
                DisplayPreference::Experimental
            } else {
                DisplayPreference::Adaptive
            }
        },
        None => DisplayPreference::Adaptive,
    }
}

/// The transport of a client.
pub type ClientTransport = Transport<UserStream, Complete>;

/// The byte that begins the quit sequence; a full stop completes it.
pub const QUIT_BEGINS: u8 = 0x1e;

pub const QUIT_COMPLETES: u8 = 0x2e;

/// What typing changes.
#[verifier::ext_equal]
pub struct Keyboard {
    pub predictions: EngineView,
    pub quit_started: bool,
    pub shutdown: Shutdown,
    /// Everything that was typed and not acknowledged.
    pub typed: Seq<UserEvent>,
}

impl Keyboard {
    /// With a byte sent, and its echo predicted, unless the session is shutting down.
    pub open spec fn sent(self, b: u8, local: Screen, now: u64) -> Keyboard {
        if self.shutdown.in_progress {
            self
        } else {
            Keyboard {
                predictions: self.predictions.typed(b, local, now),
                typed: self.typed.push(UserEvent::Byte(b)),
                ..self
            }
        }
    }

    /// After a byte was typed.
    pub open spec fn after(self, b: u8, local: Screen, now: u64) -> Keyboard {
        if self.quit_started && b == QUIT_COMPLETES {
            Keyboard {
                quit_started: false,
                shutdown: if self.shutdown.in_progress {
                    self.shutdown
                } else {
                    Shutdown { in_progress: true, start: now, ..self.shutdown }
                },
                ..self
            }
        } else if self.quit_started {
            Keyboard { quit_started: false, ..self }.sent(b, local, now)
        } else if b == QUIT_BEGINS {
            Keyboard { quit_started: true, ..self }
        } else {
            self.sent(b, local, now)
        }
    }

    /// After some bytes were typed.
    pub open spec fn after_all(self, bytes: Seq<u8>, local: Screen, now: u64) -> Keyboard
        decreases bytes.len(),
    {
        if bytes.len() == 0 {
            self
        } else {
            self.after_all(bytes.drop_last(), local, now).after(bytes.last(), local, now)
        }
    }
}

/// What the client holds.
#[verifier::ext_equal]
pub struct ClientView {
    pub transport: TransportView<UserStream, Complete>,
    pub predictions: EngineView,
    pub display: DisplayView,
    /// What the terminal shows.
    pub local: Screen,
    pub quit_started: bool,
}

impl ClientView {
    /// What typing changes.
    pub open spec fn keyboard(self) -> Keyboard {
        Keyboard {
            predictions: self.predictions,
            quit_started: self.quit_started,
            shutdown: self.transport.sender.shutdown,
            typed: self.transport.sender.current@,
        }
    }

    /// Does `after` differ in nothing but what typing changes?
    pub open spec fn typed_on(self, after: ClientView) -> bool {
        after == ClientView {
            predictions: after.predictions,
            quit_started: after.quit_started,
            transport: TransportView {
                sender: SenderView {
                    current: after.transport.sender.current,
                    shutdown: after.transport.sender.shutdown,
                    ..self.transport.sender
                },
                ..self.transport
            },
            ..self
        }
    }

    /// The server's screen.
    pub open spec fn remote(self) -> Screen {
        self.transport.received.last().state@.terminal.screen
    }

    /// The state and the text of drawing, when the copy of the server's screen counts its
    /// rows' generations from `gen`: the screen is drawn with the predictions laid over it.
    pub open spec fn drawing(self, now: u64, gen: u64) -> (ClientView, Seq<char>) {
        let base = Screen { next_gen: gen, ..self.remote() };
        let predictions = self.predictions.culled(base, now);
        let local = predictions.shown_on(base);
        (
            ClientView { predictions, local, ..self },
            frame_text(self.display, true, self.local, local),
        )
    }

    /// Can drawing lead to the given state and text?
    pub open spec fn drawn(self, now: u64, after: ClientView, text: Seq<char>) -> bool {
        exists|gen: u64| (after, text) == #[trigger] self.drawing(now, gen)
    }

    /// With the prediction engine told what the server has confirmed, which is what lets it
    /// retire guesses and judge whether it is guessing well.
    pub open spec fn confirmed(self, send_interval: u64) -> ClientView {
        ClientView {
            predictions: EngineView {
                frames: Frames {
                    acked: self.transport.sender.sent[0].num,
                    late_acked: self.transport.received.last().state@.echo_ack,
                    ..self.predictions.frames
                },
                triggers: Triggers { send_interval, ..self.predictions.triggers },
                ..self.predictions
            },
            ..self
        }
    }

    /// Is the session over?
    pub open spec fn over(self, now: u64) -> bool {
        let sender = self.transport.sender;
        sender.shutdown.in_progress && (sender.sent[0].num == SHUTDOWN_NUM
            || sender.fragmenter.last_ack() == SHUTDOWN_NUM || sender.shutdown_timed_out(now))
    }
}

/// A client's side of a session.
pub struct Client {
    transport: ClientTransport,
    predictions: PredictionEngine,
    display: Display,
    local: Framebuffer,
    quit_started: bool,
}

impl View for Client {
    type V = ClientView;

    closed spec fn view(&self) -> ClientView {
        ClientView {
            transport: self.transport@,
            predictions: self.predictions@,
            display: self.display@,
            local: self.local@,
            quit_started: self.quit_started,
        }
    }
}

/// What paints the initial screen, so that what is diffed against is what the terminal
/// shows.
pub fn initial_paint(display: &Display, local: &Framebuffer) -> (s: String)
    requires
        local@.valid(),
    ensures
        s@ == display@.smcup + "\x1b[?1h"@ + frame_text(display@, false, local@, local@),
{
    let mut s = display.open();
    s.append(display.new_frame(false, local, local).as_str());
    s
}

impl Client {
    /// The transport is well formed, and so is what is predicted and shown.
    pub closed spec fn well_formed(&self) -> bool {
        self.transport.well_formed() && self.predictions@.valid() && self.local@.valid()
    }

    /// What is well formed has a valid transport, valid predictions and a valid screen.
    pub proof fn lemma_well_formed(&self)
        requires
            self.well_formed(),
        ensures
            self@.transport.valid(),
            self@.predictions.valid(),
            self@.local.valid(),
    {
        self.transport.lemma_well_formed();
    }

    /// A client for a terminal of the given size. The server is told of it before anything
    /// else, and keystrokes leave as soon as possible: batching them adds visible latency.
    pub fn new(
        transport: ClientTransport,
        display: Display,
        preference: DisplayPreference,
        overwrite: bool,
        widths: Rc<Widths>,
        cols: i32,
        rows: i32,
    ) -> (c: Self)
        requires
            transport.well_formed(),
            1 <= cols <= MAX_DIMENSION,
            1 <= rows <= MAX_DIMENSION,
        ensures
            c.well_formed(),
            c@.display == display@,
            !c@.quit_started,
            c@.predictions == (EngineView {
                prefs: Preferences { display: preference, overwrite },
                ..EngineView::initial(widths@)
            }),
            exists|gen: u64| c@.local == Screen::initial(cols as int, rows as int, gen),
            c@.transport.sender.current@ == transport@.sender.current@.push(
                UserEvent::Resize { width: cols, height: rows },
            ),
            c@.transport == (TransportView {
                sender: SenderView {
                    current: c@.transport.sender.current,
                    timing: Timing { send_mindelay: 1, ..transport@.sender.timing },
                    ..transport@.sender
                },
                ..transport@
            }),
    {
        let mut transport = transport;
        transport.set_send_delay(1);
        let stream = transport.current_state_mut();
        stream.push_resize(cols, rows);
        let mut predictions = PredictionEngine::with_widths(widths);
        predictions.set_display_preference(preference);
        predictions.set_predict_overwrite(overwrite);
        Client {
            transport,
            predictions,
            display,
            local: Framebuffer::new(cols, rows),
            quit_started: false,
        }
    }

    /// The transport, which the caller receives and sends with.
    pub fn transport_mut(&mut self) -> (t: &mut ClientTransport)
        ensures
            t@ == old(self)@.transport,
            old(self).well_formed() ==> t.well_formed(),
            final(self)@ == (ClientView { transport: final(t)@, ..old(self)@ }),
            old(self).well_formed() && final(t).well_formed() ==> final(self).well_formed(),
    {
        &mut self.transport
    }

    /// What leaves the terminal as it was.
    pub fn farewell(&self) -> (s: String)
        ensures
            s@
                == "\x1b[?1l\x1b[0m\x1b[?25h\x1b[?1003l\x1b[?1002l\x1b[?1001l\x1b[?1000l\x1b[?1015l\x1b[?1006l\x1b[?1005l"@
                + self@.display.rmcup,
    {
        self.display.close()
    }

    /// Milliseconds until something needs doing, a tenth of a second at most.
    pub fn wait_time(&mut self, p: Pace) -> (ms: u64)
        requires
            old(self).well_formed(),
        ensures
            final(self).well_formed(),
            old(self)@.transport.sender.timed(p, final(self)@.transport.sender),
            final(self)@ == (ClientView {
                transport: TransportView {
                    sender: final(self)@.transport.sender,
                    ..old(self)@.transport
                },
                ..old(self)@
            }),
            ({
                let sender = if old(self)@.transport.connection.attached {
                    since(p.now, final(self)@.transport.sender.timing.next_due())
                } else {
                    u64::MAX as int
                };
                let judging = old(self)@.predictions.judging_in();
                &&& ms <= 100 && ms <= sender && ms <= judging
                &&& ms == 100 || ms == sender || ms == judging
            }),
    {
        let a = self.transport.wait_time(p);
        let b = self.predictions.wait_time();
        let c: u64 = if a <= b {
            a
        } else {
            b
        };
        if c <= 100 {
            c
        } else {
            100
        }
    }

    /// Tell the prediction engine what the server has confirmed.
    pub fn note_confirmed(&mut self, send_interval: u64)
        requires
            old(self).well_formed(),
        ensures
            final(self)@ == old(self)@.confirmed(send_interval),
            final(self).well_formed(),
    {
        let acked = self.transport.sent_state_acked();
        let late = self.transport.get_latest_remote_state().echo_ack();
        self.predictions.set_local_frame_acked(acked);
        self.predictions.set_local_frame_late_acked(late);
        self.predictions.set_send_interval(send_interval);
    }

    fn type_byte(&mut self, b: u8, now: u64)
        requires
            old(self).well_formed(),
        ensures
            final(self)@.keyboard() == old(self)@.keyboard().after(b, old(self)@.local, now),
            old(self)@.typed_on(final(self)@),
            final(self).well_formed(),
    {
        if self.quit_started {
            self.quit_started = false;
            if b == QUIT_COMPLETES {
                self.transport.start_shutdown(now);
                return ;
            }
        } else if b == QUIT_BEGINS {
            self.quit_started = true;
            return ;
        }
        if !self.transport.shutdown_in_progress() {
            self.predictions.new_user_byte(b, &self.local, now);
            let stream = self.transport.current_state_mut();
            stream.push_byte(b);
        }
    }

    /// Act on what was typed.
    pub fn type_bytes(&mut self, bytes: &[u8], now: u64)
        requires
            old(self).well_formed(),
        ensures
            final(self).well_formed(),
            old(self)@.typed_on(final(self)@),
            ({
                let after = old(self)@.keyboard().after_all(bytes@, old(self)@.local, now);
                final(self)@.keyboard() == (Keyboard {
                    predictions: EngineView {
                        frames: Frames {
                            sent: old(self)@.transport.sender.sent.last().num,
                            ..after.predictions.frames
                        },
                        ..after.predictions
                    },
                    ..after
                })
            }),
    {
        let mut i: usize = 0;
        let ghost before = self@;
        assert(bytes@.subrange(0, 0) =~= Seq::<u8>::empty());
        while i < bytes.len()
            invariant
                i <= bytes@.len(),
                self.well_formed(),
                before == old(self)@,
                before.typed_on(self@),
                self@.keyboard() == before.keyboard().after_all(
                    bytes@.subrange(0, i as int),
                    before.local,
                    now,
                ),
            decreases bytes@.len() - i,
        {
            proof {
                let next = bytes@.subrange(0, i + 1);
                assert(next.drop_last() =~= bytes@.subrange(0, i as int));
            }
            self.type_byte(bytes[i], now);
            i = i + 1;
        }
        assert(bytes@.subrange(0, i as int) =~= bytes@);
        let sent = self.transport.sent_state_last();
        self.predictions.set_local_frame_sent(sent);
    }

    /// Draw the server's screen, with the guesses laid over it. Returns what to write.
    pub fn draw(&mut self, now: u64) -> (text: String)
        requires
            old(self).well_formed(),
        ensures
            old(self)@.drawn(now, final(self)@, text@),
            final(self).well_formed(),
    {
        proof {
            self.transport.lemma_well_formed();
            let received = self.transport@.received;
            assert(received[received.len() - 1].state.consistent());
        }
        let ghost before = self@;
        let mut new_state = self.transport.get_latest_remote_state().fb().clone();
        let ghost gen = new_state@.next_gen;
        self.predictions.cull(&new_state, now);
        self.predictions.apply(&mut new_state);
        let text = self.display.new_frame(true, &self.local, &new_state);
        self.local = new_state;
        assert((self@, text@) == before.drawing(now, gen));
        text
    }

    /// The server signals that it is leaving by moving to the shutdown state number. The
    /// client has to notice and shut down too, or it waits for a peer that is gone.
    pub fn notice_shutdown(&mut self, now: u64)
        requires
            old(self).well_formed(),
        ensures
            final(self).well_formed(),
            final(self)@ == (ClientView {
                transport: if old(self)@.transport.received.last().num == SHUTDOWN_NUM {
                    TransportView {
                        sender: old(self)@.transport.sender.shutdown_started(now),
                        ..old(self)@.transport
                    }
                } else {
                    old(self)@.transport
                },
                ..old(self)@
            }),
    {
        if self.transport.remote_state_num() == SHUTDOWN_NUM {
            self.transport.start_shutdown(now);
        }
    }

    /// The payloads of the datagrams that are due.
    pub fn tick(&mut self, p: Pace) -> (r: Result<Tick, FailedTick>)
        requires
            old(self).well_formed(),
        ensures
            final(self).well_formed(),
            old(self)@.transport.sender.ticked(
                p,
                old(self)@.transport.connection.attached,
                old(self)@.transport.connection.mtu as nat,
                final(self)@.transport.sender,
                tick_views(r),
            ),
            final(self)@ == (ClientView {
                transport: TransportView {
                    sender: final(self)@.transport.sender,
                    ..old(self)@.transport
                },
                ..old(self)@
            }),
    {
        self.transport.tick(p)
    }

    /// Is the session over?
    pub fn finished(&self, now: u64) -> (b: bool)
        requires
            self.well_formed(),
        ensures
            b == self@.over(now),
    {
        self.transport.shutdown_in_progress() && (self.transport.shutdown_acknowledged()
            || self.transport.counterparty_shutdown_acknowledged()
            || self.transport.shutdown_ack_timed_out(now))
    }
}

} // verus!
