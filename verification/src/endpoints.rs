//! What the two ends of a session do for the user and for the child.

use vstd::prelude::*;
use vstd::utf8::encode_utf8;

use crate::args::ArgsView;
use crate::child::{child_term, child_variables, command_to_run, timeout_in, NetworkTimeout};
use crate::choices::lacks;
use crate::client::{ClientView, Keyboard};
use crate::complete::{frames_from, newest_covered, CompleteView};
use crate::framebuffer::Screen;
use crate::launch::printed_numbers_are_read_back;
use crate::login::{server_host, sessions_left, EntryView};
use crate::server::{Feed, HostRead, HostWrite, ServerView, Verdict};
use crate::text::decimal;
use crate::user::UserEvent;
use crate::words::{after_last, trimmed};

verus! {

/// The bytes that were typed, in order.
pub open spec fn bytes_in(events: Seq<UserEvent>) -> Seq<u8>
    decreases events.len(),
{
    if events.len() == 0 {
        Seq::empty()
    } else {
        match events.last() {
            UserEvent::Byte(b) => bytes_in(events.drop_last()).push(b),
            UserEvent::Resize { .. } => bytes_in(events.drop_last()),
        }
    }
}

/// The size that was last asked for, if any was.
pub open spec fn last_size(events: Seq<UserEvent>) -> Option<(i32, i32)>
    decreases events.len(),
{
    if events.len() == 0 {
        None
    } else {
        match events.last() {
            UserEvent::Byte(_) => last_size(events.drop_last()),
            UserEvent::Resize { width, height } => Some((width, height)),
        }
    }
}

/// A width or a height, brought into the range of those that a terminal can have.
pub open spec fn dimension(n: i32) -> int {
    if n < 1 {
        1
    } else if n > 65535 {
        65535
    } else {
        n as int
    }
}

proof fn lemma_bytes_in(events: Seq<UserEvent>, i: int)
    requires
        0 <= i < events.len(),
    ensures
        bytes_in(events.skip(i)) == (match events[i] {
            UserEvent::Byte(b) => seq![b] + bytes_in(events.skip(i + 1)),
            UserEvent::Resize { .. } => bytes_in(events.skip(i + 1)),
        }),
        last_size(events.skip(i)) == (match last_size(events.skip(i + 1)) {
            Some(size) => Some(size),
            None => match events[i] {
                UserEvent::Byte(_) => None,
                UserEvent::Resize { width, height } => Some((width, height)),
            },
        }),
    decreases events.len(),
{
    let s = events.skip(i);
    if s.len() == 1 {
        assert(s.drop_last() =~= Seq::empty());
        assert(events.skip(i + 1) =~= Seq::empty());
        assert(s.last() == events[i]);
        assert(bytes_in(s.drop_last()) =~= Seq::empty());
        assert(bytes_in(events.skip(i + 1)) =~= Seq::empty());
        match events[i] {
            UserEvent::Byte(b) => {
                assert(bytes_in(s) =~= seq![b]);
                assert(seq![b] + bytes_in(events.skip(i + 1)) =~= seq![b]);
            },
            UserEvent::Resize { .. } => {},
        }
    } else {
        let shorter = events.drop_last();
        lemma_bytes_in(shorter, i);
        assert(shorter.skip(i) =~= s.drop_last());
        assert(shorter.skip(i + 1) =~= events.skip(i + 1).drop_last());
        assert(s.last() == events.skip(i + 1).last());
        assert(shorter[i] == events[i]);
        match (events[i], s.last()) {
            (UserEvent::Byte(b), UserEvent::Byte(c)) => {
                assert((seq![b] + bytes_in(shorter.skip(i + 1))).push(c) =~= seq![b] + bytes_in(
                    shorter.skip(i + 1),
                ).push(c));
            },
            _ => {},
        }
    }
}

proof fn lemma_fed(f: Feed, events: Seq<UserEvent>, i: int)
    requires
        0 <= i <= events.len(),
        f.screen.terminal.dispatch.reply.len() == 0,
    ensures
        ({
            let t = f.with_events(events, i);
            let rest = events.skip(i);
            &&& t.to_host == f.to_host + bytes_in(rest)
            &&& t.screen.terminal.dispatch.reply.len() == 0
            &&& last_size(rest) is None ==> t.screen == f.screen && t.sizes == f.sizes
            &&& last_size(rest) matches Some(size) ==> {
                &&& t.sizes.len() > f.sizes.len()
                &&& t.sizes.last() == (dimension(size.0) as i32, dimension(size.1) as i32)
                &&& t.screen.terminal.screen.ds.geo.width == dimension(size.0)
                &&& t.screen.terminal.screen.ds.geo.height == dimension(size.1)
            }
            &&& t.sizes.len() >= f.sizes.len()
        }),
    decreases events.len() - i,
{
    let rest = events.skip(i);
    if i == events.len() {
        assert(rest =~= Seq::empty());
        assert(f.to_host + bytes_in(rest) =~= f.to_host);
    } else {
        lemma_bytes_in(events, i);
        match events[i] {
            UserEvent::Byte(b) => {
                let g = Feed { to_host: f.to_host.push(b), ..f };
                lemma_fed(g, events, i + 1);
                assert(g.to_host + bytes_in(events.skip(i + 1)) =~= f.to_host + bytes_in(rest));
            },
            UserEvent::Resize { width, height } => {
                if i + 1 < events.len() && events[i + 1] is Resize {
                    lemma_fed(f, events, i + 1);
                    lemma_bytes_in(events, i + 1);
                } else {
                    let g = f.resized(width, height);
                    assert(encode_utf8(f.screen.terminal.dispatch.reply) =~= Seq::empty());
                    assert(g.to_host =~= f.to_host);
                    lemma_fed(g, events, i + 1);
                    reveal(Screen::resized);
                    reveal(crate::draw_state::DrawView::resized);
                    reveal(crate::draw_state::GeometryView::resized);
                    assert(g.screen.terminal.screen.ds.geo.width == dimension(width));
                    assert(g.screen.terminal.screen.ds.geo.height == dimension(height));
                    assert(g.sizes.last() == (
                        dimension(width) as i32,
                        dimension(height) as i32,
                    ));
                }
            },
        }
    }
}

/// Every byte that the user typed goes to the child, in order; nothing else does, as long as
/// the terminal has nothing to say. The screen and the pty take the size that was last asked
/// for, and the screen changes in nothing if none was.
pub proof fn what_the_user_did_reaches_the_child(f: Feed, events: Seq<UserEvent>)
    requires
        f.screen.terminal.dispatch.reply.len() == 0,
    ensures
        ({
            let t = f.with_events(events, 0);
            &&& t.to_host == f.to_host + bytes_in(events)
            &&& last_size(events) is None ==> t.screen == f.screen && t.sizes == f.sizes
            &&& last_size(events) matches Some(size) ==> {
                &&& t.sizes.len() > f.sizes.len()
                &&& t.sizes.last() == (dimension(size.0) as i32, dimension(size.1) as i32)
                &&& t.screen.terminal.screen.ds.geo.width == dimension(size.0)
                &&& t.screen.terminal.screen.ds.geo.height == dimension(size.1)
            }
        }),
{
    lemma_fed(f, events, 0);
    assert(events.skip(0) =~= events);
}

/// What the child writes goes to the screen, and what the terminal replies goes to the child;
/// the end of its output means that nothing more will come.
pub proof fn what_the_child_writes_reaches_the_screen(s: ServerView, read: HostRead, after: ServerView)
    requires
        s.host_output_taken(read, after),
    ensures
        match read {
            HostRead::Data(bytes) => {
                let fed = s.screen().terminal.fed(bytes@);
                &&& after.screen().terminal.screen == fed.screen
                &&& after.to_host == s.to_host + encode_utf8(fed.dispatch.reply)
                &&& after.screen().terminal.dispatch.reply.len() == 0
                &&& after.child_gone == s.child_gone
            },
            HostRead::Retry => after == s,
            _ => after.child_gone && after.screen() == s.screen() && after.to_host == s.to_host,
        },
{
}

/// What the pty took is not written again, and the rest stays in order.
pub proof fn what_was_written_is_not_written_again(s: ServerView, n: usize)
    requires
        n <= s.to_host.len(),
    ensures
        s.host_written(HostWrite::Written(n)).to_host == s.to_host.skip(n as int),
        s.host_written(HostWrite::Retry) == s,
        s.host_written(HostWrite::Failed).child_gone,
        s.host_written(HostWrite::Failed).to_host == s.to_host,
{
}

/// The session begins to end once the child is gone: once its output ended, or once it exited
/// and left nothing in the pty. Not before.
pub proof fn sessions_end_with_their_child(s: ServerView, exited: bool, drained: bool, now: u64)
    ensures
        ({
            let t = s.child_looked_for(exited, drained, now);
            let over = s.child_gone || ((s.child_reaped || exited) && !drained);
            &&& t.child_gone == over
            &&& t.child_reaped == (s.child_reaped || exited)
            &&& over ==> t.shutting_down()
            &&& !over ==> t.transport == s.transport
            &&& s.shutting_down() ==> t.transport == s.transport
            &&& over && !s.shutting_down() ==> t.transport.sender.shutdown.start == now
            &&& t.screen() == s.screen() && t.to_host == s.to_host
        }),
{
}

/// A server gives up when the child is gone and the client has been told or cannot be; when
/// nothing was heard for as long as the operator allows; a minute after its start if no
/// client ever came; and when nothing was heard for a week.
pub proof fn servers_give_up_in_time(s: ServerView, now: u64)
    requires
        s.transport.received.len() > 0,
        s.transport.sender.sent.len() > 0,
        now >= s.start,
        now >= s.transport.received.last().timestamp,
    ensures
        ({
            let idle = now - s.transport.received.last().timestamp;
            let shutdown = s.transport.sender.shutdown;
            let ended = s.child_gone && (s.transport.sender.sent[0].num == u64::MAX || (
            shutdown.in_progress && (shutdown.tries >= 16 || (now >= shutdown.start && now
                - shutdown.start >= 10_000))));
            let too_quiet = s.network_timeout matches Some(limit) && idle >= limit;
            let alone = s.transport.received.last().num == 0 && now - s.start >= 60_000;
            let v = s.verdict(now);
            &&& (v == Verdict::Finished <==> ended)
            &&& !ended && too_quiet ==> v == Verdict::NetworkIdle((idle / 1000) as u64)
            &&& !ended && !too_quiet && alone ==> v == Verdict::NoClient
            &&& !ended && !too_quiet && !alone ==> v == (if idle >= 604_800_000 {
                Verdict::ClientVanished
            } else {
                Verdict::Continue
            })
        }),
{
}

/// Queries are noted once a new state carries them, and retired only when the client has
/// acknowledged that state; those that came later are kept.
pub proof fn queries_wait_for_the_client(s: ServerView, before: u64, after: ServerView)
    requires
        s.transport.sender.sent.len() > 0,
    ensures
        ({
            let screen = s.screen().terminal.screen;
            let last = s.transport.sender.sent.last().num;
            let noted = s.queries_noted(before);
            &&& s.queries_in_flight is Some ==> noted == s
            &&& last == before || screen.color_queries.len() == 0 ==> noted == s
            &&& s.queries_in_flight is None && last != before && screen.color_queries.len() > 0
                ==> noted.queries_in_flight == Some((last, screen.color_query_seq))
            &&& noted.screen() == s.screen()
        }),
        s.queries_retired(after) ==> match s.queries_in_flight {
            None => after == s,
            Some((num, seq)) => if s.transport.sender.sent[0].num < num {
                after == s
            } else {
                &&& after.queries_in_flight is None
                &&& s.screen().terminal.screen.color_query_seq == seq
                    ==> after.screen().terminal.screen.color_queries.len() == 0
                &&& s.screen().terminal.screen.color_query_seq != seq
                    ==> after.screen().terminal.screen.color_queries
                    == s.screen().terminal.screen.color_queries
            },
        },
{
}

/// The quit sequence ends the session and is not sent; what follows its beginning otherwise
/// is sent, without it.
pub proof fn the_quit_sequence_ends_the_session(k: Keyboard, b: u8, local: Screen, now: u64)
    requires
        !k.quit_started,
        !k.shutdown.in_progress,
    ensures
        ({
            let t = k.after_all(seq![0x1eu8, b], local, now);
            &&& !t.quit_started
            &&& b == 0x2e ==> t.shutdown.in_progress && t.shutdown.start == now && t.typed
                == k.typed && t.predictions == k.predictions
            &&& b != 0x2e ==> t.shutdown == k.shutdown && t.typed == k.typed.push(
                UserEvent::Byte(b),
            ) && t.predictions == k.predictions.typed(b, local, now)
        }),
{
    let two = seq![0x1eu8, b];
    assert(two.drop_last() =~= seq![0x1eu8]);
    assert(seq![0x1eu8].drop_last() =~= Seq::empty());
    assert(k.after_all(seq![0x1eu8].drop_last(), local, now) == k);
    assert(k.after_all(seq![0x1eu8], local, now) == k.after(0x1e, local, now));
}

/// The events of typing some bytes.
pub open spec fn events_of(bytes: Seq<u8>) -> Seq<UserEvent> {
    bytes.map_values(|b: u8| UserEvent::Byte(b))
}

/// What is typed is sent, byte for byte, unless the session is ending or the quit sequence
/// is begun.
pub proof fn what_is_typed_is_sent(k: Keyboard, bytes: Seq<u8>, local: Screen, now: u64)
    requires
        !k.quit_started,
        forall|i: int| 0 <= i < bytes.len() ==> #[trigger] bytes[i] != 0x1e,
    ensures
        ({
            let t = k.after_all(bytes, local, now);
            &&& !t.quit_started
            &&& t.shutdown == k.shutdown
            &&& !k.shutdown.in_progress ==> t.typed == k.typed + events_of(bytes)
            &&& k.shutdown.in_progress ==> t == k
        }),
    decreases bytes.len(),
{
    if bytes.len() > 0 {
        let init = bytes.drop_last();
        assert forall|i: int| 0 <= i < init.len() implies #[trigger] init[i] != 0x1e by {
            assert(bytes[i] != 0x1e);
        }
        what_is_typed_is_sent(k, init, local, now);
        assert(bytes[bytes.len() - 1] != 0x1e);
        assert((k.typed + events_of(init)).push(UserEvent::Byte(bytes.last())) =~= k.typed
            + events_of(bytes));
    } else {
        assert(k.typed + events_of(bytes) =~= k.typed);
    }
}

/// The prediction engine learns what the server has, and what is echoed on the screen.
pub proof fn predictions_learn_what_is_confirmed(c: ClientView, send_interval: u64)
    ensures
        ({
            let t = c.confirmed(send_interval);
            &&& t.predictions.frames.acked == c.transport.sender.sent[0].num
            &&& t.predictions.frames.late_acked == c.transport.received.last().state@.echo_ack
            &&& t.predictions.frames.sent == c.predictions.frames.sent
            &&& t.predictions.triggers.send_interval == send_interval
            &&& t.predictions.overlays == c.predictions.overlays
            &&& t.transport == c.transport
        }),
{
}

/// A session is over for the client once it is ending and either side has said so to the
/// other, or nobody answers.
pub proof fn sessions_are_over_when_both_know(c: ClientView, now: u64)
    requires
        c.transport.sender.sent.len() > 0,
    ensures
        ({
            let s = c.transport.sender;
            c.over(now) <==> s.shutdown.in_progress && (s.sent[0].num == u64::MAX
                || s.fragmenter.last_ack() == u64::MAX || s.shutdown.tries >= 16 || (now
                >= s.shutdown.start && now - s.shutdown.start >= 10_000))
        }),
{
}

/// What the terminal shows is the server's screen with the predictions that stood the test
/// drawn on it.
pub proof fn the_local_screen_is_the_remote_one_with_predictions(
    c: ClientView,
    now: u64,
    after: ClientView,
    text: Seq<char>,
)
    requires
        c.drawn(now, after, text),
    ensures
        exists|gen: u64|
            ({
                let base = #[trigger] with_generation(c.remote(), gen);
                &&& after.predictions == c.predictions.culled(base, now)
                &&& after.local == after.predictions.shown_on(base)
                &&& after.remote() == c.remote()
            }),
{
    let gen = choose|gen: u64| (after, text) == #[trigger] c.drawing(now, gen);
    let base = with_generation(c.remote(), gen);
    assert(after.predictions == c.predictions.culled(base, now));
}

/// The screen with its rows' generations counted from another number.
pub open spec fn with_generation(s: Screen, gen: u64) -> Screen {
    Screen { next_gen: gen, ..s }
}

/// A time limit is given in seconds and kept in milliseconds; none is none.
pub proof fn time_limits_are_in_seconds(seconds: nat)
    requires
        seconds <= 0x7fff_ffff,
    ensures
        timeout_in(Some(decimal(seconds))) == NetworkTimeout::Limit((seconds * 1000) as u64),
        timeout_in(None) == NetworkTimeout::Unset,
        seconds > 0 ==> timeout_in(Some(seq!['-'] + decimal(seconds))) == NetworkTimeout::Negative,
{
    let d = decimal(seconds);
    printed_numbers_are_read_back(seconds, 0x7fff_ffff_ffff_ffff);
    printed_numbers_are_read_back(seconds, 0x8000_0000_0000_0000);
    crate::launch::lemma_decimal_value(seconds);
    assert(d.len() > 0 && '0' <= d[0] <= '9' && '0' <= d[d.len() - 1] <= '9');
    assert(trimmed(d) =~= d);
    let m = seq!['-'] + d;
    assert(m[m.len() - 1] == d[d.len() - 1]);
    assert(trimmed(m) =~= m);
    assert(m.skip(1) =~= d);
}

/// The child is the command that was asked for, or the user's shell as a login shell.
pub proof fn the_child_is_what_was_asked_for(a: ArgsView, dir: Seq<char>, name: Seq<char>)
    requires
        lacks(name, '/'),
    ensures
        a.command.len() > 0 ==> command_to_run(a, Some(dir + seq!['/'] + name)) == (
            a.command[0],
            a.command,
        ),
        a.command.len() == 0 ==> command_to_run(a, Some(dir + seq!['/'] + name)) == (
            dir + seq!['/'] + name,
            seq![seq!['-'] + name],
        ),
        a.command.len() == 0 ==> command_to_run(a, None).0 == "/bin/sh"@,
{
    reveal_strlit("-");
    assert("-"@ =~= seq!['-']);
    lemma_after_last_slash(dir + seq!['/'], name);
}

proof fn lemma_after_last_slash(front: Seq<char>, name: Seq<char>)
    requires
        lacks(name, '/'),
        front.len() > 0,
        front.last() == '/',
    ensures
        after_last(front + name, '/') == name,
    decreases name.len(),
{
    if name.len() == 0 {
        assert(front + name =~= front);
        assert(after_last(front, '/') =~= name);
    } else {
        let rest = name.drop_last();
        assert forall|i: int| 0 <= i < rest.len() implies #[trigger] rest[i] != '/' by {
            assert(name[i] != '/');
        }
        lemma_after_last_slash(front, rest);
        assert((front + name).drop_last() =~= front + rest);
        assert(name[name.len() - 1] != '/');
        assert(rest.push(name.last()) =~= name);
    }
}

/// The child's terminal has 256 colours if that many were asked for, and is otherwise of the
/// type that the server was started with; the child gets the locale of the client.
pub proof fn the_child_sees_its_terminal(a: ArgsView, term: Seq<char>)
    ensures
        a.colors >= 256 ==> child_term(a, Some(term)) == "xterm-256color"@,
        a.colors < 256 ==> child_term(a, Some(term)) == term,
        a.colors < 256 ==> child_term(a, None) == "xterm"@,
        child_variables(a, Some(term)).contains(("TERM"@, child_term(a, Some(term)))),
        child_variables(a, Some(term)).skip(2) == a.locale_vars,
{
    let v = child_variables(a, Some(term));
    assert(v[0] == ("TERM"@, child_term(a, Some(term))));
    assert(v.skip(2) =~= a.locale_vars);
}

/// A session is reported if, and only if, it is one of the user's, a server wrote its record,
/// its device is still there, and it is not the one that asks.
pub proof fn sessions_left_running_are_reported(
    entries: Seq<EntryView>,
    username: Seq<char>,
    ignore: Seq<char>,
    exists: Seq<bool>,
    host: Seq<char>,
)
    requires
        entries.len() <= exists.len(),
    ensures
        sessions_left(entries, username, ignore, exists).contains(host) <==> exists|i: int|
            0 <= i < entries.len() && (#[trigger] entries[i]).host == host && entries[i].user
                == username && host != ignore && server_host(host) && exists[i],
    decreases entries.len(),
{
    if entries.len() > 0 {
        let init = entries.drop_last();
        sessions_left_running_are_reported(init, username, ignore, exists, host);
        let before = sessions_left(init, username, ignore, exists);
        let all = sessions_left(entries, username, ignore, exists);
        let n = entries.len() - 1;
        if all.contains(host) {
            let j = choose|j: int| 0 <= j < all.len() && all[j] == host;
            if j < before.len() {
                assert(before[j] == host);
                let i = choose|i: int|
                    0 <= i < init.len() && (#[trigger] init[i]).host == host && init[i].user
                        == username && host != ignore && server_host(host) && exists[i];
                assert(entries[i].host == host);
            } else {
                assert(entries[n].host == host);
            }
        }
        if exists|i: int|
            0 <= i < entries.len() && (#[trigger] entries[i]).host == host && entries[i].user
                == username && host != ignore && server_host(host) && exists[i] {
            let i = choose|i: int|
                0 <= i < entries.len() && (#[trigger] entries[i]).host == host && entries[i].user
                    == username && host != ignore && server_host(host) && exists[i];
            if i < n {
                assert(init[i].host == host);
                assert(before.contains(host));
                let j = choose|j: int| 0 <= j < before.len() && before[j] == host;
                assert(all[j] == host);
            } else {
                assert(all[all.len() - 1] == host);
            }
        }
    }
}

/// The echo of input is acknowledged once the input is fifty milliseconds old: the newest
/// frame that is, or none. Frames that are not older than that one are remembered.
pub proof fn echoes_are_acknowledged_in_time(c: CompleteView, now: u64, i: int)
    requires
        now >= 50,
        -1 <= i < c.input_history.len(),
        i >= 0 ==> c.input_history[i].1 <= now - 50,
        forall|j: int|
            i < j < c.input_history.len() ==> (#[trigger] c.input_history[j]).1 > now - 50,
    ensures
        ({
            let t = c.echo_advanced(now);
            &&& t.echo_ack == (if i >= 0 {
                c.input_history[i].0
            } else {
                0
            })
            &&& t.terminal == c.terminal
            &&& forall|f: (u64, u64)|
                #[trigger] t.input_history.contains(f) <==> c.input_history.contains(f) && f.0
                    >= t.echo_ack
        }),
{
    lemma_newest_covered(c.input_history, now - 50, i);
    lemma_frames_from(c.input_history, c.echo_advanced(now).echo_ack);
}

proof fn lemma_newest_covered(history: Seq<(u64, u64)>, cutoff: int, i: int)
    requires
        -1 <= i < history.len(),
        i >= 0 ==> history[i].1 <= cutoff,
        forall|j: int| i < j < history.len() ==> (#[trigger] history[j]).1 > cutoff,
    ensures
        newest_covered(history, cutoff) == (if i >= 0 {
            history[i].0
        } else {
            0
        }),
    decreases history.len(),
{
    if history.len() > 0 && i < history.len() - 1 {
        assert(history[history.len() - 1].1 > cutoff);
        lemma_newest_covered(history.drop_last(), cutoff, i);
    }
}

proof fn lemma_frames_from(history: Seq<(u64, u64)>, n: u64)
    ensures
        forall|f: (u64, u64)|
            #[trigger] frames_from(history, n).contains(f) <==> history.contains(f) && f.0 >= n,
    decreases history.len(),
{
    if history.len() > 0 {
        let init = history.drop_last();
        lemma_frames_from(init, n);
        let (rest, all) = (frames_from(init, n), frames_from(history, n));
        assert forall|f: (u64, u64)|
            #[trigger] all.contains(f) <==> history.contains(f) && f.0 >= n by {
            if all.contains(f) {
                let i = choose|i: int| 0 <= i < all.len() && all[i] == f;
                if i < rest.len() {
                    assert(rest[i] == f);
                    assert(rest.contains(f));
                    let k = choose|k: int| 0 <= k < init.len() && init[k] == f;
                    assert(history[k] == f);
                } else {
                    assert(history[history.len() - 1] == f);
                }
            }
            if history.contains(f) && f.0 >= n {
                let k = choose|k: int| 0 <= k < history.len() && history[k] == f;
                if k < init.len() {
                    assert(init[k] == f);
                    assert(rest.contains(f));
                    let i = choose|i: int| 0 <= i < rest.len() && rest[i] == f;
                    assert(all[i] == f);
                } else {
                    assert(all[all.len() - 1] == f);
                }
            }
        }
    }
}

/// The next echo is due when the second frame of input that is remembered is old enough;
/// with fewer there is nothing to wait for.
pub proof fn echoes_are_waited_for(c: CompleteView, now: u64)
    requires
        c.input_history.len() >= 2 ==> c.input_history[1].1 <= now + 1_000_000,
    ensures
        c.input_history.len() < 2 ==> c.wait(now) == i32::MAX,
        c.input_history.len() >= 2 && c.input_history[1].1 + 50 <= now ==> c.wait(now) == 0,
        c.input_history.len() >= 2 && c.input_history[1].1 + 50 > now ==> now + c.wait(now)
            == c.input_history[1].1 + 50,
{
}

/// Two screens that are found to be the same agree in everything that the client is told.
pub proof fn same_screens_agree(a: CompleteView, b: CompleteView)
    requires
        a.same_screen(b),
    ensures
        ({
            let (s, t) = (a.terminal.screen, b.terminal.screen);
            &&& s.rows == t.rows
            &&& s.window_title == t.window_title
            &&& s.clipboard == t.clipboard
            &&& s.clipboard_seq == t.clipboard_seq
            &&& s.color_queries == t.color_queries
            &&& s.color_query_seq == t.color_query_seq
            &&& s.bell_count == t.bell_count
            &&& s.ds.geo.cursor_row == t.ds.geo.cursor_row
            &&& s.ds.geo.cursor_col == t.ds.geo.cursor_col
            &&& s.ds.geo.width == t.ds.geo.width && s.ds.geo.height == t.ds.geo.height
            &&& s.ds.modes.cursor_visible == t.ds.modes.cursor_visible
            &&& s.ds.modes.reverse_video == t.ds.modes.reverse_video
            &&& s.ds.modes.bracketed_paste == t.ds.modes.bracketed_paste
            &&& s.ds.mouse == t.ds.mouse
            &&& s.ds.renditions == t.ds.renditions
            &&& s.ds.hyperlink == t.ds.hyperlink
        }),
{
}

} // verus!
