//! A terminal that shows one screen shows another after the frame between them.

use vstd::prelude::*;

use crate::cell::{Attribute, Renditions};
use crate::commands::{link_sendable, selected_renditions_are_read_back};
use crate::dispatcher::{
    cursor_performed, entry_for, is_color_query, mode_performed, osc_performed, osc_title,
    params_in, performed, semicolon_from, DispatcherView, MAXIMUM_CLIPBOARD_SIZE,
};
use crate::display::{
    cursor_settled, frame_builds_on, frame_placed, frame_prologue, frame_text, grid_put,
    mode_text, modes_settled, mouse_encoding_text, mouse_reporting_text, title_text,
    titles_changed, DisplayView,
};
use crate::draw_state::{
    DrawView, GeometryView, Modes, Mouse, MouseEncodingMode, MouseReportingMode,
};
use crate::emulator::EmulatorView;
use crate::frame::FrameView;
use crate::framebuffer::{lemma_encode_concat, Screen};
use crate::mirror::{
    backs_off_edge, drawn, follows, lemma_hide_text, lemma_linked, lemma_mode, lemma_moved,
    lemma_one_param, lemma_rendered, lemma_text, lemma_visibility,
};
use crate::redraw::{
    grid_drawable, lemma_grid_put, lemma_margins_reset, rows_fit, rows_look, shows_old,
};
use crate::text::decimal;
use crate::typing::{
    all_in_command, command, csi, in_command, lemma_command, lemma_control, lemma_csi,
    lemma_terminated_command, lemma_typed_concat, lemma_typed_one, private_csi,
    terminated_command, unwrapped,
};

verus! {

/// Does a terminal's screen show what another screen holds: the same cells, as far as
/// they look, the same cursor, renditions and link, and the same modes?
pub open spec fn mirrors(s: Screen, f: Screen) -> bool {
    &&& s.draws_plainly()
    &&& s.ds.geo.width == f.ds.geo.width
    &&& s.ds.geo.height == f.ds.geo.height
    &&& rows_look(s.rows, f.rows, 0, f.rows.len() as int)
    &&& s.ds.geo.cursor_row == f.ds.geo.cursor_row
    &&& s.ds.geo.cursor_col == f.ds.geo.cursor_col
    &&& !s.ds.next_print_will_wrap
    &&& s.ds.renditions == f.ds.renditions
    &&& s.ds.hyperlink == f.ds.hyperlink
    &&& s.ds.modes.cursor_visible == f.ds.modes.cursor_visible
    &&& s.ds.modes.reverse_video == f.ds.modes.reverse_video
    &&& s.ds.modes.bracketed_paste == f.ds.modes.bracketed_paste
    &&& s.ds.mouse.reporting_mode == f.ds.mouse.reporting_mode
    &&& s.ds.mouse.focus_event == f.ds.mouse.focus_event
    &&& s.ds.mouse.encoding_mode == f.ds.mouse.encoding_mode
}

/// Are the titles of two screens the same?
pub open spec fn titled_alike(s: Screen, f: Screen) -> bool {
    s.icon_name == f.icon_name && s.window_title == f.window_title
}

/// Can this title be sent?
pub open spec fn title_sendable(title: Seq<char>) -> bool {
    all_in_command(title) && title.len() + 2 <= MAXIMUM_CLIPBOARD_SIZE
}

/// Do both titles of a screen arrive in full? A terminal cuts longer ones.
pub open spec fn titles_fit(f: Screen) -> bool {
    f.icon_name.len() <= 254 && f.window_title.len() <= 254
}

/// Can this clipboard be sent: a selection, a semicolon and data?
pub open spec fn clipboard_sendable(clipboard: Seq<char>) -> bool {
    all_in_command(clipboard) && clipboard.len() + 3 <= MAXIMUM_CLIPBOARD_SIZE && semicolon_from(
        clipboard,
        0,
    ) < clipboard.len()
}

/// Queries written one after the other.
pub open spec fn queries_text(list: Seq<Seq<char>>) -> Seq<char>
    decreases list.len(),
{
    if list.len() == 0 {
        Seq::empty()
    } else {
        queries_text(list.drop_last()) + terminated_command(list.last())
    }
}

/// Are these colour queries?
pub open spec fn are_queries(list: Seq<Seq<char>>) -> bool {
    forall|i: int|
        0 <= i < list.len() ==> is_color_query(#[trigger] list[i]) && list[i].len()
            <= MAXIMUM_CLIPBOARD_SIZE
}

/// Is this text made of colour queries?
pub open spec fn is_queries_text(text: Seq<char>) -> bool {
    exists|list: Seq<Seq<char>>| are_queries(list) && text == #[trigger] queries_text(list)
}

impl Screen {
    /// Can frames carry what is not on the grid of this screen to a terminal?
    pub open spec fn sendable(self) -> bool {
        &&& self.valid()
        &&& self.ds.renditions.selectable()
        &&& link_sendable(self.ds.hyperlink)
        &&& title_sendable(self.icon_name)
        &&& title_sendable(self.window_title)
    }

    /// Can the events since `last` be sent: a new clipboard, and colour queries? A clipboard
    /// that was emptied since is not sent.
    pub open spec fn events_sendable(self, last: Screen) -> bool {
        &&& self.clipboard_seq != last.clipboard_seq ==> self.clipboard.len() == 0
            || clipboard_sendable(self.clipboard)
        &&& self.color_query_seq != last.color_query_seq ==> is_queries_text(self.color_queries)
    }

    /// Does `after` differ from this screen in nothing but titles, clipboard, colour
    /// queries, bell and reverse video?
    pub open spec fn told_of(self, after: Screen) -> bool {
        &&& after.valid()
        &&& after == Screen {
            icon_name: after.icon_name,
            window_title: after.window_title,
            title_initialized: after.title_initialized,
            clipboard: after.clipboard,
            clipboard_seq: after.clipboard_seq,
            color_queries: after.color_queries,
            color_query_seq: after.color_query_seq,
            bell_count: after.bell_count,
            ds: after.ds,
            ..self
        }
        &&& after.ds == DrawView {
            modes: Modes { reverse_video: after.ds.modes.reverse_video, ..self.ds.modes },
            ..self.ds
        }
    }
}

/// Is `after` this terminal after it was told something?
spec fn told(e: EmulatorView, after: EmulatorView) -> bool {
    e.shows(after.screen, after) && e.screen.told_of(after.screen)
}

proof fn lemma_bell(e: EmulatorView)
    requires
        e.settled(),
        e.screen.valid(),
        !e.screen.ds.next_print_will_wrap,
    ensures
        told(e, e.typed(seq!['\u{7}'])),
        titled_alike(e.typed(seq!['\u{7}']).screen, e.screen),
        e.typed(seq!['\u{7}']).screen.ds == e.screen.ds,
{
    lemma_typed_one(e, '\u{7}');
    lemma_control(e, '\u{7}');
    reveal(DispatcherView::screen_after);
    reveal(entry_for);
    reveal(performed);
    reveal(cursor_performed);
    reveal(mode_performed);
    assert(unwrapped(e.screen) == e.screen);
}

/// The command that sets a title.
spec fn title_command(n: char, title: Seq<char>) -> Seq<char> {
    seq![n, ';'] + title
}

proof fn lemma_title_command(e: EmulatorView, n: char, title: Seq<char>)
    requires
        e.settled(),
        e.screen.valid(),
        n == '0' || n == '1' || n == '2',
        title_sendable(title),
    ensures
        ({
            let after = e.typed(command(title_command(n, title)));
            &&& told(e, after)
            &&& after.screen.ds == e.screen.ds
            &&& n == '2' ==> after.screen.icon_name == e.screen.icon_name
            &&& n == '1' ==> after.screen.window_title == e.screen.window_title
            &&& n != '2' && title.len() <= 254 ==> after.screen.icon_name == title
            &&& n != '1' && title.len() <= 254 ==> after.screen.window_title == title
        }),
{
    let osc = title_command(n, title);
    assert forall|i: int| 0 <= i < osc.len() implies in_command(#[trigger] osc[i]) by {
        if i >= 2 {
            assert(osc[i] == title[i - 2]);
        }
    }
    lemma_command(e, osc);
    reveal(osc_performed);
    assert(osc[0] == n && osc[1] == ';');
    assert(semicolon_from(osc, 0) == 1) by {
        reveal_with_fuel(semicolon_from, 2);
    }
    if title.len() <= 254 {
        assert(osc.subrange(2, osc.len() as int) =~= title);
        assert(osc_title(osc) =~= title);
    }
}

proof fn lemma_titles(e: EmulatorView, f: Screen)
    requires
        e.settled(),
        e.screen.valid(),
        title_sendable(f.icon_name),
        title_sendable(f.window_title),
    ensures
        told(e, e.typed(title_text(f))),
        e.typed(title_text(f)).screen.ds == e.screen.ds,
        titles_fit(f) ==> titled_alike(e.typed(title_text(f)).screen, f),
{
    reveal_strlit("\x1b]0;");
    reveal_strlit("\x1b]1;");
    reveal_strlit("\x1b]2;");
    if f.icon_name == f.window_title {
        lemma_title_command(e, '0', f.window_title);
        assert(title_text(f) =~= command(title_command('0', f.window_title)));
    } else {
        let first = command(title_command('1', f.icon_name));
        let second = command(title_command('2', f.window_title));
        lemma_title_command(e, '1', f.icon_name);
        lemma_title_command(e.typed(first), '2', f.window_title);
        lemma_typed_concat(e, first, second);
        assert(title_text(f) =~= first + second);
    }
}

proof fn lemma_clipboard(e: EmulatorView, clipboard: Seq<char>)
    requires
        e.settled(),
        e.screen.valid(),
        clipboard.len() == 0 || clipboard_sendable(clipboard),
    ensures
        ({
            let after = e.typed("\x1b]52;"@ + clipboard + seq!['\u{7}']);
            &&& told(e, after)
            &&& after.screen.ds == e.screen.ds
            &&& titled_alike(after.screen, e.screen)
            &&& after.screen.clipboard == if clipboard.len() > 0 {
                clipboard
            } else {
                e.screen.clipboard
            }
        }),
{
    reveal_strlit("\x1b]52;");
    let osc = seq!['5', '2', ';'] + clipboard;
    assert forall|i: int| 0 <= i < osc.len() implies in_command(#[trigger] osc[i]) by {
        if i >= 3 {
            assert(osc[i] == clipboard[i - 3]);
        }
    }
    lemma_command(e, osc);
    assert("\x1b]52;"@ + clipboard + seq!['\u{7}'] =~= command(osc));
    reveal(osc_performed);
    if clipboard.len() > 0 {
        lemma_semicolon_shift(clipboard, osc, 0);
        assert(osc.subrange(3, osc.len() as int) =~= clipboard);
    } else {
        assert(osc[0] == '5' && osc[1] == '2' && osc[2] == ';' && osc.len() == 3);
        assert(semicolon_from(osc, 0) == 2) by {
            reveal_with_fuel(semicolon_from, 3);
        }
    }
}

proof fn lemma_semicolon_shift(s: Seq<char>, t: Seq<char>, from: int)
    requires
        0 <= from <= s.len(),
        t == seq!['5', '2', ';'] + s,
    ensures
        semicolon_from(t, from + 3) == semicolon_from(s, from) + 3,
    decreases s.len() - from,
{
    if from < s.len() {
        assert(t[from + 3] == s[from]);
        lemma_semicolon_shift(s, t, from + 1);
    }
}

proof fn lemma_queries(e: EmulatorView, list: Seq<Seq<char>>)
    requires
        e.settled(),
        e.screen.valid(),
        !e.screen.ds.next_print_will_wrap,
        are_queries(list),
    ensures
        ({
            let after = e.typed(queries_text(list));
            &&& told(e, after)
            &&& after.screen.ds == e.screen.ds
            &&& titled_alike(after.screen, e.screen)
            &&& after.screen.clipboard == e.screen.clipboard
        }),
    decreases list.len(),
{
    if list.len() > 0 {
        let before = list.drop_last();
        assert forall|i: int| 0 <= i < before.len() implies is_color_query(#[trigger] before[i])
            && before[i].len() <= MAXIMUM_CLIPBOARD_SIZE by {
            assert(before[i] == list[i]);
        }
        lemma_queries(e, before);
        let m = e.typed(queries_text(before));
        let osc = list.last();
        assert(is_color_query(list[list.len() - 1]) && list[list.len() - 1].len()
            <= MAXIMUM_CLIPBOARD_SIZE);
        assert forall|i: int| 0 <= i < osc.len() implies in_command(#[trigger] osc[i]) by {
            assert(32 <= osc[i] as u32 <= 126);
        }
        lemma_terminated_command(m, osc);
        reveal(osc_performed);
        lemma_encode_concat(m.screen.color_queries, "\x1b]"@ + osc + "\x1b\\"@);
        lemma_typed_concat(e, queries_text(before), terminated_command(osc));
    }
}

proof fn lemma_reverse(e: EmulatorView, on: bool)
    requires
        e.settled(),
        e.screen.valid(),
    ensures
        ({
            let after = e.typed(mode_text(on, "\x1b[?5h"@, "\x1b[?5l"@));
            &&& told(e, after)
            &&& titled_alike(after.screen, e.screen)
            &&& after.screen.clipboard == e.screen.clipboard
            &&& after.screen.ds.modes.reverse_video == on
        }),
{
    reveal_strlit("\x1b[?5h");
    reveal_strlit("\x1b[?5l");
    assert(decimal(5) =~= seq!['5']);
    assert("\x1b[?5h"@ =~= private_csi(decimal(5), 'h'));
    assert("\x1b[?5l"@ =~= private_csi(decimal(5), 'l'));
    lemma_mode(e, 5, on);
    reveal(Screen::private_mode_set);
    reveal(DrawView::flag_switched);
}

/// Text, if there is reason for it.
spec fn text_when(cond: bool, text: Seq<char>) -> Seq<char> {
    if cond {
        text
    } else {
        Seq::empty()
    }
}

/// What the terminal shows after some of what is not on the grid.
#[verifier::opaque]
spec fn informed(e: EmulatorView, after: EmulatorView) -> bool {
    told(e, after)
}

proof fn lemma_informed(e: EmulatorView, after: EmulatorView)
    requires
        informed(e, after),
        e.settled(),
    ensures
        after.settled(),
        after.screen.valid(),
        after.screen.ds.next_print_will_wrap == e.screen.ds.next_print_will_wrap,
{
    reveal(informed);
}

proof fn lemma_informed_through(e: EmulatorView, m: EmulatorView, after: EmulatorView)
    requires
        informed(e, m),
        informed(m, after),
    ensures
        informed(e, after),
{
    reveal(informed);
}

proof fn lemma_bell_when(e: EmulatorView, cond: bool)
    requires
        e.settled(),
        e.screen.valid(),
        !e.screen.ds.next_print_will_wrap,
    ensures
        ({
            let after = e.typed(text_when(cond, seq!['\u{7}']));
            &&& informed(e, after)
            &&& titled_alike(after.screen, e.screen)
            &&& after.screen.ds.modes == e.screen.ds.modes
        }),
{
    reveal(informed);
    if cond {
        lemma_bell(e);
    }
}

proof fn lemma_titles_when(e: EmulatorView, cond: bool, f: Screen)
    requires
        e.settled(),
        e.screen.valid(),
        title_sendable(f.icon_name),
        title_sendable(f.window_title),
    ensures
        ({
            let after = e.typed(text_when(cond, title_text(f)));
            &&& informed(e, after)
            &&& cond && titles_fit(f) ==> titled_alike(after.screen, f)
            &&& !cond ==> titled_alike(after.screen, e.screen)
            &&& after.screen.ds.modes == e.screen.ds.modes
        }),
{
    reveal(informed);
    if cond {
        lemma_titles(e, f);
    }
}

proof fn lemma_clipboard_when(e: EmulatorView, cond: bool, clipboard: Seq<char>)
    requires
        e.settled(),
        e.screen.valid(),
        cond ==> clipboard.len() == 0 || clipboard_sendable(clipboard),
    ensures
        ({
            let after = e.typed(
                text_when(cond, "\x1b]52;"@ + clipboard + seq!['\u{7}']),
            );
            &&& informed(e, after)
            &&& titled_alike(after.screen, e.screen)
            &&& after.screen.ds.modes == e.screen.ds.modes
            &&& cond && clipboard.len() > 0 ==> after.screen.clipboard == clipboard
        }),
{
    reveal(informed);
    if cond {
        lemma_clipboard(e, clipboard);
    }
}

proof fn lemma_queries_when(e: EmulatorView, cond: bool, text: Seq<char>)
    requires
        e.settled(),
        e.screen.valid(),
        !e.screen.ds.next_print_will_wrap,
        cond ==> is_queries_text(text),
    ensures
        ({
            let after = e.typed(text_when(cond, text));
            &&& informed(e, after)
            &&& titled_alike(after.screen, e.screen)
            &&& after.screen.ds.modes == e.screen.ds.modes
            &&& after.screen.clipboard == e.screen.clipboard
        }),
{
    reveal(informed);
    if cond {
        let list = choose|list: Seq<Seq<char>>|
            are_queries(list) && text == #[trigger] queries_text(list);
        lemma_queries(e, list);
    }
}

proof fn lemma_reverse_when(e: EmulatorView, cond: bool, on: bool)
    requires
        e.settled(),
        e.screen.valid(),
        !cond ==> e.screen.ds.modes.reverse_video == on,
    ensures
        ({
            let after = e.typed(text_when(cond, mode_text(on, "\x1b[?5h"@, "\x1b[?5l"@)));
            &&& informed(e, after)
            &&& titled_alike(after.screen, e.screen)
            &&& after.screen.clipboard == e.screen.clipboard
            &&& after.screen.ds.modes.reverse_video == on
        }),
{
    reveal(informed);
    if cond {
        lemma_reverse(e, on);
    }
}

/// The text of what is not on the grid.
spec fn prologue_text(d: DisplayView, initialized: bool, last: Screen, f: Screen) -> Seq<char> {
    text_when(f.bell_count != last.bell_count, seq!['\u{7}']) + text_when(
        d.has_title && titles_changed(initialized, last, f),
        title_text(f),
    ) + text_when(
        initialized && f.clipboard_seq != last.clipboard_seq,
        "\x1b]52;"@ + f.clipboard + seq!['\u{7}'],
    ) + text_when(initialized && f.color_query_seq != last.color_query_seq, f.color_queries)
        + text_when(
        !initialized || f.ds.modes.reverse_video != last.ds.modes.reverse_video,
        mode_text(f.ds.modes.reverse_video, "\x1b[?5h"@, "\x1b[?5l"@),
    )
}

proof fn lemma_text_when(f: FrameView, cond: bool, t: Seq<char>)
    ensures
        f.text_if(cond, t) == f.text(text_when(cond, t)),
{
    if !cond {
        assert(f.out + text_when(cond, t) =~= f.out);
    }
}

proof fn lemma_prologue_text(
    d: DisplayView,
    initialized: bool,
    last: Screen,
    f: Screen,
    start: FrameView,
)
    requires
        start.out.len() == 0,
    ensures
        frame_prologue(d, initialized, last, f, start) == (FrameView {
            out: prologue_text(d, initialized, last, f),
            ..start
        }),
{
    reveal(frame_prologue);
    let (c1, t1) = (f.bell_count != last.bell_count, seq!['\u{7}']);
    let (c2, t2) = (d.has_title && titles_changed(initialized, last, f), title_text(f));
    let c3 = initialized && f.clipboard_seq != last.clipboard_seq;
    let t3 = "\x1b]52;"@ + f.clipboard + seq!['\u{7}'];
    let (c4, t4) = (initialized && f.color_query_seq != last.color_query_seq, f.color_queries);
    let c5 = !initialized || f.ds.modes.reverse_video != last.ds.modes.reverse_video;
    let t5 = mode_text(f.ds.modes.reverse_video, "\x1b[?5h"@, "\x1b[?5l"@);
    let f1 = start.text_if(c1, t1);
    let f2 = f1.text_if(c2, t2);
    let f3 = f2.text_if(c3, t3);
    let f4 = f3.text_if(c4, t4);
    lemma_text_when(start, c1, t1);
    lemma_text_when(f1, c2, t2);
    lemma_text_when(f2, c3, t3);
    lemma_text_when(f3, c4, t4);
    lemma_text_when(f4, c5, t5);
    assert(start.out + text_when(c1, t1) =~= text_when(c1, t1));
}

/// The terminal is told of what is not on the grid, and of nothing else.
#[verifier::rlimit(40)]
#[verifier::spinoff_prover]
proof fn lemma_prologue(e: EmulatorView, d: DisplayView, initialized: bool, last: Screen, f: Screen)
    requires
        e.settled(),
        e.screen.valid(),
        !e.screen.ds.next_print_will_wrap,
        title_sendable(f.icon_name),
        title_sendable(f.window_title),
        initialized ==> f.events_sendable(last),
        initialized ==> e.screen.ds.modes.reverse_video == last.ds.modes.reverse_video,
    ensures
        ({
            let after = e.typed(prologue_text(d, initialized, last, f));
            &&& told(e, after)
            &&& after.screen.ds.modes.reverse_video == f.ds.modes.reverse_video
            &&& if d.has_title && titles_changed(initialized, last, f) {
                titles_fit(f) ==> titled_alike(after.screen, f)
            } else {
                titled_alike(after.screen, e.screen)
            }
            &&& initialized && f.clipboard_seq != last.clipboard_seq && f.clipboard.len() > 0
                ==> after.screen.clipboard == f.clipboard
        }),
{
    let (c1, t1) = (f.bell_count != last.bell_count, seq!['\u{7}']);
    let (c2, t2) = (d.has_title && titles_changed(initialized, last, f), title_text(f));
    let c3 = initialized && f.clipboard_seq != last.clipboard_seq;
    let t3 = "\x1b]52;"@ + f.clipboard + seq!['\u{7}'];
    let (c4, t4) = (initialized && f.color_query_seq != last.color_query_seq, f.color_queries);
    let c5 = !initialized || f.ds.modes.reverse_video != last.ds.modes.reverse_video;
    let t5 = mode_text(f.ds.modes.reverse_video, "\x1b[?5h"@, "\x1b[?5l"@);
    let p1 = text_when(c1, t1);
    let p2 = text_when(c2, t2);
    let p3 = text_when(c3, t3);
    let p4 = text_when(c4, t4);
    let p5 = text_when(c5, t5);
    lemma_bell_when(e, c1);
    let e1 = e.typed(p1);
    lemma_informed(e, e1);
    lemma_titles_when(e1, c2, f);
    let e2 = e1.typed(p2);
    lemma_informed(e1, e2);
    lemma_typed_concat(e, p1, p2);
    lemma_clipboard_when(e2, c3, f.clipboard);
    let e3 = e2.typed(p3);
    lemma_informed(e2, e3);
    lemma_typed_concat(e, p1 + p2, p3);
    lemma_queries_when(e3, c4, f.color_queries);
    let e4 = e3.typed(p4);
    lemma_informed(e3, e4);
    lemma_typed_concat(e, p1 + p2 + p3, p4);
    lemma_reverse_when(e4, c5, f.ds.modes.reverse_video);
    let e5 = e4.typed(p5);
    lemma_typed_concat(e, p1 + p2 + p3 + p4, p5);
    lemma_informed_through(e, e1, e2);
    lemma_informed_through(e, e2, e3);
    lemma_informed_through(e, e3, e4);
    lemma_informed_through(e, e4, e5);
    reveal(informed);
}

/// Resetting rows keeps the screen otherwise as it is.
proof fn lemma_rows_reset(s: Screen, from: int, to: int)
    requires
        s.draws_plainly(),
        0 <= from,
        to <= s.rows.len(),
    ensures
        s.rows_reset(from, to).draws_plainly(),
        s.drawn_over(s.rows_reset(from, to)),
        s.rows_reset(from, to).ds == s.ds,
    decreases to - from,
{
    if from < to {
        let t = s.row_reset(from);
        assert(s.rows[from].cells.len() == s.ds.geo.width);
        assert forall|i: int| 0 <= i < t.rows.len() implies (#[trigger] t.rows[i]).cells.len()
            == t.ds.geo.width by {
            assert(s.rows[i].cells.len() == s.ds.geo.width);
        }
        lemma_rows_reset(t, from + 1, to);
    }
}

proof fn lemma_plain_text()
    ensures
        Renditions::plain(0).sgr_text() == "\x1b[0m"@,
{
    reveal_strlit("\x1b[0m");
    let r = Renditions::plain(0);
    assert(0u8 & 1u8 == 0 && 0u8 & 2u8 == 0 && 0u8 & 4u8 == 0 && 0u8 & 8u8 == 0 && 0u8 & 16u8 == 0
        && 0u8 & 32u8 == 0 && 0u8 & 64u8 == 0 && 0u8 & 128u8 == 0) by (bit_vector);
    assert(!r.has(Attribute::Bold) && !r.has(Attribute::Faint) && !r.has(Attribute::Italic)
        && !r.has(Attribute::Underlined) && !r.has(Attribute::Blink) && !r.has(Attribute::Inverse)
        && !r.has(Attribute::Invisible) && !r.has(Attribute::Strikethrough));
    assert(r.sgr_text() =~= "\x1b[0m"@);
}

proof fn lemma_home(e: EmulatorView)
    requires
        e.settled(),
        e.screen.draws_plainly(),
    ensures
        e.shows(e.screen.cursor_at(0, 0), e.typed("\x1b[H"@)),
{
    reveal_strlit("\x1b[H");
    assert("\x1b[H"@ =~= csi(Seq::empty(), 'H'));
    lemma_csi(e, Seq::empty(), 'H');
    assert(params_in(Seq::empty()) =~= seq![-1int]);
    reveal(entry_for);
    reveal(performed);
    reveal(cursor_performed);
    reveal(Screen::cursor_commanded);
    reveal(DrawView::row_moved);
    reveal(DrawView::col_moved);
    reveal(GeometryView::row_moved);
    reveal(GeometryView::col_moved);
}

proof fn lemma_cleared(e: EmulatorView)
    requires
        e.settled(),
        e.screen.draws_plainly(),
        !e.screen.ds.next_print_will_wrap,
    ensures
        e.shows(
            e.screen.rows_reset(0, e.screen.ds.geo.height),
            e.typed("\x1b[2J"@),
        ),
{
    reveal_strlit("\x1b[2J");
    assert(decimal(2) =~= seq!['2']);
    assert("\x1b[2J"@ =~= csi(decimal(2), 'J'));
    lemma_one_param(2);
    lemma_csi(e, decimal(2), 'J');
    assert(unwrapped(e.screen) == e.screen);
    reveal(entry_for);
    reveal(performed);
    reveal(Screen::display_erased);
}

/// The text that takes over a terminal.
spec fn takeover_text() -> Seq<char> {
    "\x1b[r"@ + "\x1b[0m"@ + "\x1b[H"@ + "\x1b[2J"@ + "\x1b[?25l"@
}

/// The scrolling region, the renditions and the cursor set back.
proof fn lemma_set_back(e: EmulatorView)
    requires
        e.settled(),
        e.screen.draws_plainly(),
        e.screen.ds.hyperlink is None,
    ensures
        ({
            let after = e.typed("\x1b[r"@ + "\x1b[0m"@ + "\x1b[H"@);
            let (s, t) = (e.screen, after.screen);
            &&& e.shows(t, after)
            &&& t.draws_plainly()
            &&& s.drawn_over(t)
            &&& t.ds.geo.cursor_row == 0
            &&& t.ds.geo.cursor_col == 0
            &&& !t.ds.next_print_will_wrap
            &&& t.ds.renditions == Renditions::plain(0)
            &&& t.ds.hyperlink is None
        }),
{
    let (t1, t2, t3) = ("\x1b[r"@, "\x1b[0m"@, "\x1b[H"@);
    lemma_margins_reset(e);
    let a = e.typed(t1);
    assert(a.screen.draws_plainly() && e.screen.drawn_over(a.screen));
    lemma_plain_text();
    selected_renditions_are_read_back(a, Renditions::plain(0));
    let b = a.typed(t2);
    assert(b.screen.draws_plainly() && e.screen.drawn_over(b.screen));
    lemma_typed_concat(e, t1, t2);
    lemma_home(b);
    lemma_typed_concat(e, t1 + t2, t3);
}

/// A terminal that is taken over is where the frame takes it to be.
proof fn lemma_taken_over(e: EmulatorView)
    requires
        e.settled(),
        e.screen.draws_plainly(),
        e.screen.ds.hyperlink is None,
    ensures
        ({
            let (s, t) = (e.screen, e.typed(takeover_text()).screen);
            &&& e.shows(t, e.typed(takeover_text()))
            &&& t.draws_plainly()
            &&& s.drawn_over(t)
            &&& t.ds.geo.cursor_row == 0
            &&& t.ds.geo.cursor_col == 0
            &&& !t.ds.next_print_will_wrap
            &&& t.ds.renditions == Renditions::plain(0)
            &&& t.ds.hyperlink is None
            &&& !t.ds.modes.cursor_visible
        }),
{
    let before = "\x1b[r"@ + "\x1b[0m"@ + "\x1b[H"@;
    let (t4, t5) = ("\x1b[2J"@, "\x1b[?25l"@);
    lemma_set_back(e);
    let c = e.typed(before);
    lemma_cleared(c);
    let d = c.typed(t4);
    lemma_typed_concat(e, before, t4);
    lemma_rows_reset(c.screen, 0, c.screen.ds.geo.height);
    assert(d.screen.draws_plainly() && e.screen.drawn_over(d.screen));
    lemma_hide_text();
    lemma_mode(d, 25, false);
    reveal(Screen::private_mode_set);
    reveal(DrawView::flag_switched);
    lemma_typed_concat(e, before + t4, t5);
}

/// May a frame be drawn on this terminal: one that shows the last screen, or one that is
/// taken over?
pub open spec fn frame_ready(e: EmulatorView, builds: bool, last: Screen) -> bool {
    &&& e.settled()
    &&& !e.screen.ds.next_print_will_wrap
    &&& if builds {
        mirrors(e.screen, last) && last.valid()
    } else {
        e.screen.draws_plainly() && e.screen.ds.hyperlink is None
    }
}

/// The terminal is where the frame takes it to be.
proof fn lemma_frame_placed(
    e: EmulatorView,
    d: DisplayView,
    initialized: bool,
    last: Screen,
    f: Screen,
    start: FrameView,
)
    requires
        frame_ready(e, frame_builds_on(initialized, last, f), last),
        f.sendable(),
        initialized ==> f.events_sendable(last),
        initialized ==> e.screen.ds.modes.reverse_video == last.ds.modes.reverse_video,
        start.out.len() == 0,
        start.visible == last.ds.modes.cursor_visible,
    ensures
        ({
            let builds = frame_builds_on(initialized, last, f);
            let g = frame_placed(builds, last, frame_prologue(d, initialized, last, f, start));
            let p = e.typed(prologue_text(d, initialized, last, f)).screen;
            let t = drawn(e, g);
            &&& follows(e, g)
            &&& 0 <= g.x < t.ds.geo.width
            &&& e.screen.told_of(p)
            &&& p.drawn_over(t)
            &&& builds ==> t == p
        }),
{
    let builds = frame_builds_on(initialized, last, f);
    lemma_prologue_text(d, initialized, last, f, start);
    lemma_prologue(e, d, initialized, last, f);
    let frame = frame_prologue(d, initialized, last, f, start);
    let a = e.typed(frame.out);
    reveal(frame_placed);
    let g = frame_placed(builds, last, frame);
    if !builds {
        lemma_taken_over(a);
        lemma_text(e, frame, takeover_text());
        reveal_strlit("\x1b[0m\x1b[H\x1b[2J");
        reveal_strlit("\x1b[0m");
        reveal_strlit("\x1b[H");
        reveal_strlit("\x1b[2J");
        assert("\x1b[0m\x1b[H\x1b[2J"@ =~= "\x1b[0m"@ + "\x1b[H"@ + "\x1b[2J"@);
        assert(g.out =~= frame.text(takeover_text()).out);
    }
}

/// The cursor, the renditions and the link are those of the screen.
proof fn lemma_cursor_settled(e: EmulatorView, builds: bool, f: Screen, frame: FrameView)
    requires
        follows(e, frame),
        f.valid(),
        drawn(e, frame).ds.geo.width == f.ds.geo.width,
        drawn(e, frame).ds.geo.height == f.ds.geo.height,
        f.ds.renditions.selectable(),
        link_sendable(f.ds.hyperlink),
        !backs_off_edge(
            frame,
            f.ds.geo.width,
            f.ds.geo.cursor_row,
            f.ds.geo.cursor_col,
        ),
    ensures
        ({
            let g = cursor_settled(builds, f, frame);
            let (s, t) = (drawn(e, frame), drawn(e, g));
            &&& e.typed(g.out).settled()
            &&& e.typed(g.out).widths == e.widths
            &&& t.draws_plainly()
            &&& s.drawn_over(t)
            &&& t.rows == s.rows
            &&& t.ds.geo.cursor_row == f.ds.geo.cursor_row
            &&& t.ds.geo.cursor_col == f.ds.geo.cursor_col
            &&& !t.ds.next_print_will_wrap
            &&& t.ds.renditions == f.ds.renditions
            &&& t.ds.hyperlink == f.ds.hyperlink
            &&& t.ds.modes.cursor_visible == f.ds.modes.cursor_visible
        }),
{
    reveal(cursor_settled);
    let geo = f.ds.geo;
    let moves = !builds || geo.cursor_row != frame.y || geo.cursor_col != frame.x;
    let moved = if moves {
        frame.moved(geo.cursor_row, geo.cursor_col)
    } else {
        frame
    };
    reveal(FrameView::moved);
    if moves {
        lemma_moved(e, frame, geo.cursor_row, geo.cursor_col);
    }
    let on = f.ds.modes.cursor_visible;
    let shown = moved.text_if(
        !builds || on != moved.visible,
        mode_text(on, "\x1b[?25h"@, "\x1b[?25l"@),
    );
    let seen = FrameView { visible: on, ..shown };
    if !builds || on != moved.visible {
        lemma_visibility(e, moved, on);
    }
    assert(follows(e, seen));
    lemma_rendered(e, seen, f.ds.renditions, !builds);
    let r = seen.rendered(f.ds.renditions, !builds);
    lemma_linked(e, r, f.ds.hyperlink, !builds);
    let l = r.linked(f.ds.hyperlink, !builds);
    let g = cursor_settled(builds, f, frame);
    assert(g.out == l.out);
}

/// The text of a mode that is switched.
#[verifier::opaque]
spec fn switch_text(n: nat, on: bool) -> Seq<char> {
    private_csi(
        decimal(n),
        if on {
            'h'
        } else {
            'l'
        },
    )
}

proof fn lemma_switch_texts()
    ensures
        "\x1b[?2004h"@ == switch_text(2004, true),
        "\x1b[?2004l"@ == switch_text(2004, false),
        "\x1b[?1004h"@ == switch_text(1004, true),
        "\x1b[?1004l"@ == switch_text(1004, false),
        "\x1b[?1003l\x1b[?1002l\x1b[?1001l\x1b[?1000l"@ == switch_text(1003, false) + switch_text(
            1002,
            false,
        ) + switch_text(1001, false) + switch_text(1000, false),
        "\x1b[?1015l\x1b[?1006l\x1b[?1005l"@ == switch_text(1015, false) + switch_text(
            1006,
            false,
        ) + switch_text(1005, false),
{
    reveal(switch_text);
    reveal_strlit("\x1b[?2004h");
    reveal_strlit("\x1b[?2004l");
    reveal_strlit("\x1b[?1004h");
    reveal_strlit("\x1b[?1004l");
    reveal_strlit("\x1b[?1003l\x1b[?1002l\x1b[?1001l\x1b[?1000l");
    reveal_strlit("\x1b[?1015l\x1b[?1006l\x1b[?1005l");
    reveal_with_fuel(decimal, 5);
    assert(decimal(2004) =~= seq!['2', '0', '0', '4']);
    assert(decimal(1004) =~= seq!['1', '0', '0', '4']);
    assert(decimal(1000) =~= seq!['1', '0', '0', '0']);
    assert(decimal(1001) =~= seq!['1', '0', '0', '1']);
    assert(decimal(1002) =~= seq!['1', '0', '0', '2']);
    assert(decimal(1003) =~= seq!['1', '0', '0', '3']);
    assert(decimal(1005) =~= seq!['1', '0', '0', '5']);
    assert(decimal(1006) =~= seq!['1', '0', '0', '6']);
    assert(decimal(1015) =~= seq!['1', '0', '1', '5']);
    assert("\x1b[?2004h"@ =~= switch_text(2004, true));
    assert("\x1b[?2004l"@ =~= switch_text(2004, false));
    assert("\x1b[?1004h"@ =~= switch_text(1004, true));
    assert("\x1b[?1004l"@ =~= switch_text(1004, false));
    assert("\x1b[?1003l\x1b[?1002l\x1b[?1001l\x1b[?1000l"@ =~= switch_text(1003, false)
        + switch_text(1002, false) + switch_text(1001, false) + switch_text(1000, false));
    assert("\x1b[?1015l\x1b[?1006l\x1b[?1005l"@ =~= switch_text(1015, false) + switch_text(
        1006,
        false,
    ) + switch_text(1005, false));
}

/// Is `after` this terminal with nothing but its mouse modes and bracketed paste changed?
#[verifier::opaque]
spec fn mode_changed(e: EmulatorView, after: EmulatorView) -> bool {
    &&& e.shows(after.screen, after)
    &&& after.screen == e.screen.with_ds(
        DrawView {
            modes: Modes {
                bracketed_paste: after.screen.ds.modes.bracketed_paste,
                ..e.screen.ds.modes
            },
            mouse: Mouse {
                alternate_scroll: e.screen.ds.mouse.alternate_scroll,
                ..after.screen.ds.mouse
            },
            ..e.screen.ds
        },
    )
}

proof fn lemma_mode_changed_through(e: EmulatorView, m: EmulatorView, after: EmulatorView)
    requires
        mode_changed(e, m),
        mode_changed(m, after),
    ensures
        mode_changed(e, after),
{
    reveal(mode_changed);
}


/// A mode switched that changes nothing else.
proof fn lemma_switched(e: EmulatorView, n: nat, on: bool)
    requires
        e.settled(),
        n == 9 || 1000 <= n <= 1006 || n == 1015 || n == 2004,
    ensures
        ({
            let after = e.typed(switch_text(n, on));
            &&& mode_changed(e, after)
            &&& after.settled()
            &&& after.screen.ds.modes == e.screen.ds.modes.switched(n as int, on)
            &&& after.screen.ds.mouse == e.screen.ds.mouse.switched(n as int, on)
        }),
{
    reveal(switch_text);
    lemma_mode(e, n, on);
    reveal(Screen::private_mode_set);
    reveal(DrawView::flag_switched);
    reveal(mode_changed);
}

proof fn lemma_mode_unchanged(e: EmulatorView)
    ensures
        mode_changed(e, e),
{
    reveal(mode_changed);
}

proof fn lemma_paste_when(e: EmulatorView, cond: bool, on: bool)
    requires
        e.settled(),
        !cond ==> e.screen.ds.modes.bracketed_paste == on,
    ensures
        ({
            let after = e.typed(
                text_when(cond, mode_text(on, "\x1b[?2004h"@, "\x1b[?2004l"@)),
            );
            &&& mode_changed(e, after)
            &&& after.settled()
            &&& after.screen.ds.modes.bracketed_paste == on
            &&& after.screen.ds.mouse == e.screen.ds.mouse
        }),
{
    lemma_switch_texts();
    lemma_mode_unchanged(e);
    if cond {
        lemma_switched(e, 2004, on);
    }
}

proof fn lemma_focus_when(e: EmulatorView, cond: bool, on: bool)
    requires
        e.settled(),
        !cond ==> e.screen.ds.mouse.focus_event == on,
    ensures
        ({
            let after = e.typed(
                text_when(cond, mode_text(on, "\x1b[?1004h"@, "\x1b[?1004l"@)),
            );
            &&& mode_changed(e, after)
            &&& after.settled()
            &&& after.screen.ds.modes == e.screen.ds.modes
            &&& after.screen.ds.mouse == (Mouse { focus_event: on, ..e.screen.ds.mouse })
        }),
{
    lemma_switch_texts();
    lemma_mode_unchanged(e);
    if cond {
        lemma_switched(e, 1004, on);
    }
}

proof fn lemma_reporting_off(e: EmulatorView)
    requires
        e.settled(),
    ensures
        ({
            let after = e.typed("\x1b[?1003l\x1b[?1002l\x1b[?1001l\x1b[?1000l"@);
            &&& mode_changed(e, after)
            &&& after.settled()
            &&& after.screen.ds.modes == e.screen.ds.modes
            &&& after.screen.ds.mouse == (Mouse {
                reporting_mode: MouseReportingMode::Off,
                ..e.screen.ds.mouse
            })
        }),
{
    lemma_switch_texts();
    let (t1, t2, t3, t4) = (
        switch_text(1003, false),
        switch_text(1002, false),
        switch_text(1001, false),
        switch_text(1000, false),
    );
    let a = e.typed(t1);
    let b = a.typed(t2);
    let c = b.typed(t3);
    let d = c.typed(t4);
    lemma_switched(e, 1003, false);
    lemma_switched(a, 1002, false);
    lemma_switched(b, 1001, false);
    lemma_switched(c, 1000, false);
    lemma_typed_concat(e, t1, t2);
    lemma_typed_concat(e, t1 + t2, t3);
    lemma_typed_concat(e, t1 + t2 + t3, t4);
    lemma_mode_changed_through(e, a, b);
    lemma_mode_changed_through(e, b, c);
    lemma_mode_changed_through(e, c, d);
}

/// The text of a numbered mode that is switched.
proof fn lemma_numbered_switch(n: nat, on: bool)
    ensures
        "\x1b[?"@ + decimal(n) + (if on {
            "h"@
        } else {
            "l"@
        }) == switch_text(n, on),
{
    reveal(switch_text);
    reveal_strlit("\x1b[?");
    reveal_strlit("h");
    reveal_strlit("l");
    assert("\x1b[?"@ + decimal(n) + (if on {
        "h"@
    } else {
        "l"@
    }) =~= switch_text(n, on));
}

/// One mode switched off, if there is one, and another switched on.
proof fn lemma_replaced(e: EmulatorView, had: bool, m: nat, n: nat)
    requires
        e.settled(),
        had ==> m == 9 || 1000 <= m <= 1006 || m == 1015,
        n == 9 || 1000 <= n <= 1006 || n == 1015,
    ensures
        ({
            let after = e.typed(text_when(had, switch_text(m, false)) + switch_text(n, true));
            let mid = if had {
                e.screen.ds.mouse.switched(m as int, false)
            } else {
                e.screen.ds.mouse
            };
            &&& mode_changed(e, after)
            &&& after.settled()
            &&& after.screen.ds.modes == e.screen.ds.modes
            &&& after.screen.ds.mouse == mid.switched(n as int, true)
        }),
{
    let first = text_when(had, switch_text(m, false));
    let a = e.typed(first);
    lemma_mode_unchanged(e);
    if had {
        lemma_switched(e, m, false);
    }
    lemma_switched(a, n, true);
    lemma_typed_concat(e, first, switch_text(n, true));
    lemma_mode_changed_through(e, a, a.typed(switch_text(n, true)));
}

proof fn lemma_reporting_when(e: EmulatorView, cond: bool, last: Screen, f: Screen)
    requires
        e.settled(),
        !cond ==> e.screen.ds.mouse.reporting_mode == f.ds.mouse.reporting_mode,
    ensures
        ({
            let after = e.typed(text_when(cond, mouse_reporting_text(last, f)));
            &&& mode_changed(e, after)
            &&& after.settled()
            &&& after.screen.ds.modes == e.screen.ds.modes
            &&& after.screen.ds.mouse == (Mouse {
                reporting_mode: f.ds.mouse.reporting_mode,
                ..e.screen.ds.mouse
            })
        }),
{
    lemma_mode_unchanged(e);
    let was = last.ds.mouse.reporting_mode;
    let is = f.ds.mouse.reporting_mode;
    if cond {
        if is == MouseReportingMode::Off {
            lemma_reporting_off(e);
        } else {
            let (m, n) = (was.mode_number() as nat, is.mode_number() as nat);
            let had = was != MouseReportingMode::Off;
            lemma_numbered_switch(m, false);
            lemma_numbered_switch(n, true);
            lemma_replaced(e, had, m, n);
            assert(mouse_reporting_text(last, f) =~= text_when(had, switch_text(m, false))
                + switch_text(n, true));
        }
    }
}

proof fn lemma_encoding_off(e: EmulatorView)
    requires
        e.settled(),
    ensures
        ({
            let after = e.typed("\x1b[?1015l\x1b[?1006l\x1b[?1005l"@);
            &&& mode_changed(e, after)
            &&& after.settled()
            &&& after.screen.ds.modes == e.screen.ds.modes
            &&& after.screen.ds.mouse == (Mouse {
                encoding_mode: MouseEncodingMode::Default,
                ..e.screen.ds.mouse
            })
        }),
{
    lemma_switch_texts();
    let (t1, t2, t3) = (switch_text(1015, false), switch_text(1006, false), switch_text(1005, false));
    let a = e.typed(t1);
    let b = a.typed(t2);
    let c = b.typed(t3);
    lemma_switched(e, 1015, false);
    lemma_switched(a, 1006, false);
    lemma_switched(b, 1005, false);
    lemma_typed_concat(e, t1, t2);
    lemma_typed_concat(e, t1 + t2, t3);
    lemma_mode_changed_through(e, a, b);
    lemma_mode_changed_through(e, b, c);
}

proof fn lemma_encoding_when(e: EmulatorView, cond: bool, last: Screen, f: Screen)
    requires
        e.settled(),
        !cond ==> e.screen.ds.mouse.encoding_mode == f.ds.mouse.encoding_mode,
    ensures
        ({
            let after = e.typed(text_when(cond, mouse_encoding_text(last, f)));
            &&& mode_changed(e, after)
            &&& after.settled()
            &&& after.screen.ds.modes == e.screen.ds.modes
            &&& after.screen.ds.mouse == (Mouse {
                encoding_mode: f.ds.mouse.encoding_mode,
                ..e.screen.ds.mouse
            })
        }),
{
    lemma_mode_unchanged(e);
    let was = last.ds.mouse.encoding_mode;
    let is = f.ds.mouse.encoding_mode;
    if cond {
        if is == MouseEncodingMode::Default {
            lemma_encoding_off(e);
        } else {
            let (m, n) = (was.mode_number() as nat, is.mode_number() as nat);
            let had = was != MouseEncodingMode::Default;
            lemma_numbered_switch(m, false);
            lemma_numbered_switch(n, true);
            lemma_replaced(e, had, m, n);
            assert(mouse_encoding_text(last, f) =~= text_when(had, switch_text(m, false))
                + switch_text(n, true));
        }
    }
}

/// The modes are those of the screen.
proof fn lemma_modes_settled(e: EmulatorView, builds: bool, last: Screen, f: Screen, frame: FrameView)
    requires
        e.typed(frame.out).settled(),
        builds ==> drawn(e, frame).ds.modes.bracketed_paste == last.ds.modes.bracketed_paste,
        builds ==> drawn(e, frame).ds.mouse.reporting_mode == last.ds.mouse.reporting_mode,
        builds ==> drawn(e, frame).ds.mouse.focus_event == last.ds.mouse.focus_event,
        builds ==> drawn(e, frame).ds.mouse.encoding_mode == last.ds.mouse.encoding_mode,
    ensures
        ({
            let g = modes_settled(builds, last, f, frame);
            let t = drawn(e, g);
            &&& mode_changed(e.typed(frame.out), e.typed(g.out))
            &&& t.ds.modes.bracketed_paste == f.ds.modes.bracketed_paste
            &&& t.ds.mouse.reporting_mode == f.ds.mouse.reporting_mode
            &&& t.ds.mouse.focus_event == f.ds.mouse.focus_event
            &&& t.ds.mouse.encoding_mode == f.ds.mouse.encoding_mode
        }),
{
    reveal(modes_settled);
    let c1 = !builds || f.ds.modes.bracketed_paste != last.ds.modes.bracketed_paste;
    let c2 = !builds || f.ds.mouse.reporting_mode != last.ds.mouse.reporting_mode;
    let c3 = !builds || f.ds.mouse.focus_event != last.ds.mouse.focus_event;
    let c4 = !builds || f.ds.mouse.encoding_mode != last.ds.mouse.encoding_mode;
    let t1 = mode_text(f.ds.modes.bracketed_paste, "\x1b[?2004h"@, "\x1b[?2004l"@);
    let t2 = mouse_reporting_text(last, f);
    let t3 = mode_text(f.ds.mouse.focus_event, "\x1b[?1004h"@, "\x1b[?1004l"@);
    let t4 = mouse_encoding_text(last, f);
    let f1 = frame.text_if(c1, t1);
    let f2 = f1.text_if(c2, t2);
    let f3 = f2.text_if(c3, t3);
    let f4 = f3.text_if(c4, t4);
    lemma_text_when(frame, c1, t1);
    lemma_text_when(f1, c2, t2);
    lemma_text_when(f2, c3, t3);
    lemma_text_when(f3, c4, t4);
    lemma_text(e, frame, text_when(c1, t1));
    lemma_text(e, f1, text_when(c2, t2));
    lemma_text(e, f2, text_when(c3, t3));
    lemma_text(e, f3, text_when(c4, t4));
    let e0 = e.typed(frame.out);
    let e1 = e.typed(f1.out);
    let e2 = e.typed(f2.out);
    let e3 = e.typed(f3.out);
    let e4 = e.typed(f4.out);
    lemma_paste_when(e0, c1, f.ds.modes.bracketed_paste);
    lemma_reporting_when(e1, c2, last, f);
    lemma_focus_when(e2, c3, f.ds.mouse.focus_event);
    lemma_encoding_when(e3, c4, last, f);
    lemma_mode_changed_through(e0, e1, e2);
    lemma_mode_changed_through(e0, e2, e3);
    lemma_mode_changed_through(e0, e3, e4);
}

/// The frame before anything is drawn.
pub open spec fn frame_start(last: Screen) -> FrameView {
    FrameView {
        out: Seq::empty(),
        x: 0,
        y: 0,
        rendition: Renditions::plain(0),
        link: None,
        visible: last.ds.modes.cursor_visible,
    }
}

/// The frame with the grid drawn.
pub open spec fn grid_frame(d: DisplayView, initialized: bool, last: Screen, f: Screen) -> FrameView {
    let builds = frame_builds_on(initialized, last, f);
    grid_put(
        d,
        builds,
        last,
        f,
        frame_placed(builds, last, frame_prologue(d, initialized, last, f, frame_start(last))),
    )
}

/// Would the cursor be left one column short, because the frame steps back from the end of
/// a row with backspaces?
pub open spec fn cursor_falls_short(
    d: DisplayView,
    initialized: bool,
    last: Screen,
    f: Screen,
) -> bool {
    backs_off_edge(
        grid_frame(d, initialized, last, f),
        f.ds.geo.width,
        f.ds.geo.cursor_row,
        f.ds.geo.cursor_col,
    )
}

/// Can the frame from `last` to `f` be drawn on a terminal?
pub open spec fn frame_drawable(
    e: EmulatorView,
    d: DisplayView,
    initialized: bool,
    last: Screen,
    f: Screen,
) -> bool {
    &&& frame_ready(e, frame_builds_on(initialized, last, f), last)
    &&& initialized ==> e.screen.ds.modes.reverse_video == last.ds.modes.reverse_video
    &&& f.sendable()
    &&& initialized ==> f.events_sendable(last)
    &&& grid_drawable(e.widths, frame_builds_on(initialized, last, f), last, f)
    &&& e.screen.ds.geo.width == f.ds.geo.width
    &&& e.screen.ds.geo.height == f.ds.geo.height
    &&& !cursor_falls_short(d, initialized, last, f)
}

/// The terminal with the grid drawn on it.
proof fn lemma_grid_shown(
    e: EmulatorView,
    d: DisplayView,
    initialized: bool,
    last: Screen,
    f: Screen,
)
    requires
        frame_drawable(e, d, initialized, last, f),
    ensures
        ({
            let g = grid_frame(d, initialized, last, f);
            let p = e.typed(prologue_text(d, initialized, last, f)).screen;
            let t = drawn(e, g);
            &&& follows(e, g)
            &&& e.screen.told_of(p)
            &&& p.drawn_over(t)
            &&& t.rows.len() == f.rows.len()
            &&& rows_look(t.rows, f.rows, 0, f.rows.len() as int)
        }),
{
    let builds = frame_builds_on(initialized, last, f);
    let start = frame_start(last);
    let placed = frame_placed(builds, last, frame_prologue(d, initialized, last, f, start));
    lemma_frame_placed(e, d, initialized, last, f, start);
    let p = e.typed(prologue_text(d, initialized, last, f)).screen;
    let s = drawn(e, placed);
    assert(rows_fit(f, s));
    assert(shows_old(builds, s, last.rows, 0)) by {
        if builds {
            assert(s.rows == e.screen.rows);
        }
    }
    lemma_grid_put(e, d, builds, last, f, placed);
}

/// The terminal with the cursor settled.
proof fn lemma_cursor_shown(
    e: EmulatorView,
    d: DisplayView,
    initialized: bool,
    last: Screen,
    f: Screen,
)
    requires
        frame_drawable(e, d, initialized, last, f),
    ensures
        ({
            let builds = frame_builds_on(initialized, last, f);
            let g = cursor_settled(builds, f, grid_frame(d, initialized, last, f));
            let p = e.typed(prologue_text(d, initialized, last, f)).screen;
            let t = drawn(e, g);
            &&& e.typed(g.out).settled()
            &&& e.typed(g.out).widths == e.widths
            &&& e.screen.told_of(p)
            &&& p.drawn_over(t)
            &&& t.draws_plainly()
            &&& rows_look(t.rows, f.rows, 0, f.rows.len() as int)
            &&& t.ds.geo.cursor_row == f.ds.geo.cursor_row
            &&& t.ds.geo.cursor_col == f.ds.geo.cursor_col
            &&& !t.ds.next_print_will_wrap
            &&& t.ds.renditions == f.ds.renditions
            &&& t.ds.hyperlink == f.ds.hyperlink
            &&& t.ds.modes.cursor_visible == f.ds.modes.cursor_visible
        }),
{
    lemma_grid_shown(e, d, initialized, last, f);
    let builds = frame_builds_on(initialized, last, f);
    lemma_cursor_settled(e, builds, f, grid_frame(d, initialized, last, f));
}

/// A frame turns what a terminal shows into what it should show: a terminal that shows one
/// screen shows another after the text between them, and is ready for the next frame.
///
/// The frame may also take a terminal over, when what it shows is not known or has another
/// size. What no frame can spell is left out: rows to redraw whose cells a terminal cannot
/// be made to show, a link that changes where text wraps, and a cursor that is reached by
/// backspaces from the last column.
pub proof fn frames_reach_the_screen(
    e: EmulatorView,
    d: DisplayView,
    initialized: bool,
    last: Screen,
    f: Screen,
)
    requires
        frame_drawable(e, d, initialized, last, f),
    ensures
        ({
            let after = e.typed(frame_text(d, initialized, last, f));
            &&& after.settled()
            &&& after.widths == e.widths
            &&& mirrors(after.screen, f)
            &&& if d.has_title && titles_changed(initialized, last, f) {
                titles_fit(f) ==> titled_alike(after.screen, f)
            } else {
                titled_alike(after.screen, e.screen)
            }
            &&& initialized && f.clipboard_seq != last.clipboard_seq && f.clipboard.len() > 0
                ==> after.screen.clipboard == f.clipboard
        }),
{
    let builds = frame_builds_on(initialized, last, f);
    lemma_cursor_shown(e, d, initialized, last, f);
    lemma_prologue(e, d, initialized, last, f);
    let g = cursor_settled(builds, f, grid_frame(d, initialized, last, f));
    let (p, s) = (e.typed(prologue_text(d, initialized, last, f)).screen, drawn(e, g));
    assert(s.ds.mouse == p.ds.mouse && p.ds.mouse == e.screen.ds.mouse);
    assert(s.ds.modes.bracketed_paste == e.screen.ds.modes.bracketed_paste);
    assert(s.ds.modes.reverse_video == f.ds.modes.reverse_video);
    lemma_modes_settled(e, builds, last, f, g);
    reveal(mode_changed);
}

} // verus!
