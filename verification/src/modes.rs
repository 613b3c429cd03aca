//! What modes, tabs, renditions, titles and reports mean to a terminal.

use vstd::prelude::*;

use crate::cell::{Attribute, CellView, Renditions};
use crate::control::{at, is_empty, on, ready, row_within, sent};
use crate::dispatcher::{
    cursor_performed, entry_for, mode_performed, names_insert_mode, osc_performed, param_or,
    params_in, performed, private_modes_set, renditions_selected, DispatcherView, FunctionType,
};
use crate::draw_state::{
    tab_after, tab_before, DrawView, GeometryView, Modes, Mouse, MouseEncodingMode,
    MouseReportingMode, TabsView,
};
use crate::emulator::{EmulatorView, UserInputState};
use crate::framebuffer::Screen;
use crate::mirror::lemma_one_param;
use crate::text::decimal;
use crate::typing::{
    command, csi, lemma_command, lemma_control, lemma_csi, lemma_escape_sequence,
    lemma_private_csi, lemma_typed_one, private_csi, unwrapped,
};

verus! {

/// The screen after a private mode was switched on or off.
pub open spec fn switched(e: EmulatorView, n: nat, value: bool) -> Screen {
    e.typed(
        private_csi(
            decimal(n),
            if value {
                'h'
            } else {
                'l'
            },
        ),
    ).screen
}

proof fn lemma_switched(e: EmulatorView, n: nat, value: bool)
    requires
        e.settled(),
        1 <= n <= 65535,
    ensures
        switched(e, n, value) == e.screen.private_mode_set(n as int, value),
{
    lemma_one_param(n);
    let c = if value {
        'h'
    } else {
        'l'
    };
    lemma_private_csi(e, decimal(n), c);
    let params = params_in(decimal(n));
    reveal(entry_for);
    reveal(performed);
    reveal(cursor_performed);
    reveal(mode_performed);
    assert(private_modes_set(e.screen.private_mode_set(n as int, value), params, 1, value)
        == e.screen.private_mode_set(n as int, value));
    assert(private_modes_set(e.screen, params, 0, value) == e.screen.private_mode_set(
        n as int,
        value,
    ));
}

/// Each private mode switches one thing: the form of the cursor keys, reverse video, wrapping,
/// whether the cursor is visible, and how pasted text arrives.
#[verifier::spinoff_prover]
#[verifier::rlimit(30)]
pub proof fn modes_switch_one_thing_each(e: EmulatorView, value: bool)
    requires
        e.settled(),
    ensures
        ({
            let s = e.screen;
            &&& switched(e, 1, value) == s.with_ds(
                DrawView {
                    modes: Modes { application_mode_cursor_keys: value, ..s.ds.modes },
                    ..s.ds
                },
            )
            &&& switched(e, 5, value) == s.with_ds(
                DrawView { modes: Modes { reverse_video: value, ..s.ds.modes }, ..s.ds },
            )
            &&& switched(e, 7, value) == s.with_ds(DrawView { auto_wrap_mode: value, ..s.ds })
            &&& switched(e, 25, value) == s.with_ds(
                DrawView { modes: Modes { cursor_visible: value, ..s.ds.modes }, ..s.ds },
            )
            &&& switched(e, 2004, value) == s.with_ds(
                DrawView { modes: Modes { bracketed_paste: value, ..s.ds.modes }, ..s.ds },
            )
        }),
{
    lemma_switched(e, 1, value);
    lemma_switched(e, 5, value);
    lemma_switched(e, 7, value);
    lemma_switched(e, 25, value);
    lemma_switched(e, 2004, value);
    reveal(Screen::private_mode_set);
    reveal(DrawView::flag_switched);
}

/// Each kind of mouse report is switched on under its number, and off under any; so is each
/// encoding of reports.
#[verifier::spinoff_prover]
#[verifier::rlimit(30)]
pub proof fn mouse_modes_choose_the_reports(e: EmulatorView)
    requires
        e.settled(),
    ensures
        switched(e, 9, true).ds.mouse.reporting_mode == MouseReportingMode::X10,
        switched(e, 1000, true).ds.mouse.reporting_mode == MouseReportingMode::Vt220,
        switched(e, 1001, true).ds.mouse.reporting_mode == MouseReportingMode::Vt220Hilight,
        switched(e, 1002, true).ds.mouse.reporting_mode == MouseReportingMode::BtnEvent,
        switched(e, 1003, true).ds.mouse.reporting_mode == MouseReportingMode::AnyEvent,
        switched(e, 9, false).ds.mouse.reporting_mode == MouseReportingMode::Off,
        switched(e, 1000, false).ds.mouse.reporting_mode == MouseReportingMode::Off,
        switched(e, 1001, false).ds.mouse.reporting_mode == MouseReportingMode::Off,
        switched(e, 1002, false).ds.mouse.reporting_mode == MouseReportingMode::Off,
        switched(e, 1003, false).ds.mouse.reporting_mode == MouseReportingMode::Off,
        switched(e, 1005, true).ds.mouse.encoding_mode == MouseEncodingMode::Utf8,
        switched(e, 1006, true).ds.mouse.encoding_mode == MouseEncodingMode::Sgr,
        switched(e, 1015, true).ds.mouse.encoding_mode == MouseEncodingMode::Urxvt,
        switched(e, 1005, false).ds.mouse.encoding_mode == MouseEncodingMode::Default,
        switched(e, 1006, false).ds.mouse.encoding_mode == MouseEncodingMode::Default,
        switched(e, 1015, false).ds.mouse.encoding_mode == MouseEncodingMode::Default,
{
    assert forall|n: nat, v: bool| 1 <= n <= 65535 implies #[trigger] switched(e, n, v)
        == e.screen.private_mode_set(n as int, v) by {
        lemma_switched(e, n, v);
    }
    reveal(Screen::private_mode_set);
    reveal(DrawView::flag_switched);
}

/// Focus reports and the wheel in place of cursor keys are switched on and off.
#[verifier::spinoff_prover]
#[verifier::rlimit(30)]
pub proof fn focus_and_wheel_are_switched(e: EmulatorView, value: bool)
    requires
        e.settled(),
    ensures
        switched(e, 1004, value) == e.screen.with_ds(
            DrawView { mouse: Mouse { focus_event: value, ..e.screen.ds.mouse }, ..e.screen.ds },
        ),
        switched(e, 1007, value) == e.screen.with_ds(
            DrawView { mouse: Mouse { alternate_scroll: value, ..e.screen.ds.mouse }, ..e.screen.ds },
        ),
{
    lemma_switched(e, 1004, value);
    lemma_switched(e, 1007, value);
    reveal(Screen::private_mode_set);
    reveal(DrawView::flag_switched);
}

/// Modes without a meaning here change nothing.
#[verifier::spinoff_prover]
#[verifier::rlimit(30)]
pub proof fn other_modes_change_nothing(e: EmulatorView, n: nat, value: bool)
    requires
        e.settled(),
        1 <= n <= 65535,
        n != 1 && n != 3 && n != 5 && n != 6 && n != 7 && n != 9 && n != 25 && n != 2004,
        !(1000 <= n <= 1007) && n != 1015,
    ensures
        switched(e, n, value) == e.screen,
{
    lemma_switched(e, n, value);
    reveal(Screen::private_mode_set);
    reveal(DrawView::flag_switched);
}

/// Origin mode is switched with the cursor taken home.
#[verifier::spinoff_prover]
#[verifier::rlimit(30)]
pub proof fn origin_mode_takes_the_cursor_home(e: EmulatorView, value: bool)
    requires
        e.settled(),
        e.screen.valid(),
    ensures
        ({
            let (s, t) = (e.screen, switched(e, 6, value));
            &&& t.ds.origin_mode == value
            &&& t.rows == s.rows
            &&& t.ds.geo.cursor_col == 0
            &&& t.ds.geo.cursor_row == (if s.ds.origin_mode {
                s.ds.geo.region_top
            } else {
                0
            })
            &&& t.ds.modes == s.ds.modes
        }),
{
    lemma_switched(e, 6, value);
    reveal(Screen::private_mode_set);
    reveal(DrawView::row_moved);
    reveal(DrawView::col_moved);
    reveal(GeometryView::row_moved);
    reveal(GeometryView::col_moved);
}

/// Insert mode is switched on and off, and other modes of its kind change nothing.
#[verifier::spinoff_prover]
#[verifier::rlimit(30)]
pub proof fn insert_mode_is_switched(e: EmulatorView, n: nat)
    requires
        ready(e, Some(n)),
    ensures
        sent(e, Some(n), 'h').ds.insert_mode == (n == 4 || e.screen.ds.insert_mode),
        sent(e, Some(n), 'l').ds.insert_mode == (n != 4 && e.screen.ds.insert_mode),
        sent(e, Some(n), 'h').rows == e.screen.rows,
        sent(e, Some(n), 'l').rows == e.screen.rows,
{
    lemma_one_param(n);
    lemma_csi(e, decimal(n), 'h');
    lemma_csi(e, decimal(n), 'l');
    reveal(entry_for);
    reveal(performed);
    reveal(cursor_performed);
    reveal(mode_performed);
    let params = params_in(decimal(n));
    assert(params[0] == n);
    assert(names_insert_mode(params) == (n == 4));
}

/// The number of the colour or the attribute that a code selects.
#[verifier::spinoff_prover]
#[verifier::rlimit(30)]
pub proof fn renditions_are_selected_by_number(e: EmulatorView, n: nat)
    requires
        ready(e, Some(n)),
    ensures
        ({
            let (r, t) = (e.screen.ds.renditions, sent(e, Some(n), 'm'));
            let u = t.ds.renditions;
            &&& t == e.screen.with_ds(DrawView { renditions: u, ..e.screen.ds })
            &&& n == 0 ==> u == Renditions {
                foreground_color: 0,
                background_color: 0,
                attributes: 0,
            }
            &&& 30 <= n <= 37 ==> u == Renditions { foreground_color: n as u32, ..r }
            &&& 40 <= n <= 47 ==> u == Renditions { background_color: n as u32, ..r }
            &&& 90 <= n <= 97 ==> u == Renditions { foreground_color: (n - 52) as u32, ..r }
            &&& 100 <= n <= 107 ==> u == Renditions { background_color: (n - 52) as u32, ..r }
            &&& n == 39 ==> u == Renditions { foreground_color: 0, ..r }
            &&& n == 49 ==> u == Renditions { background_color: 0, ..r }
            &&& n == 1 ==> u == r.with_attribute(Attribute::Bold, true)
            &&& n == 2 ==> u == r.with_attribute(Attribute::Faint, true)
            &&& n == 3 ==> u == r.with_attribute(Attribute::Italic, true)
            &&& n == 4 ==> u == r.with_attribute(Attribute::Underlined, true)
            &&& n == 5 ==> u == r.with_attribute(Attribute::Blink, true)
            &&& n == 7 ==> u == r.with_attribute(Attribute::Inverse, true)
            &&& n == 8 ==> u == r.with_attribute(Attribute::Invisible, true)
            &&& n == 9 ==> u == r.with_attribute(Attribute::Strikethrough, true)
            &&& n == 22 ==> u == r.with_attribute(Attribute::Bold, false).with_attribute(
                Attribute::Faint,
                false,
            )
            &&& n == 23 ==> u == r.with_attribute(Attribute::Italic, false)
            &&& n == 24 ==> u == r.with_attribute(Attribute::Underlined, false)
            &&& n == 25 ==> u == r.with_attribute(Attribute::Blink, false)
            &&& n == 27 ==> u == r.with_attribute(Attribute::Inverse, false)
            &&& n == 28 ==> u == r.with_attribute(Attribute::Invisible, false)
            &&& n == 29 ==> u == r.with_attribute(Attribute::Strikethrough, false)
        }),
{
    lemma_one_param(n);
    lemma_csi(e, decimal(n), 'm');
    reveal(entry_for);
    reveal(performed);
    reveal(cursor_performed);
    reveal(mode_performed);
    let params = params_in(decimal(n));
    let r = e.screen.ds.renditions;
    assert(params.len() == 1 && params[0] == n);
    assert(param_or(params, 0, 0) == n);
    assert(renditions_selected(r.with_rendition(n as u32), params, 1) == r.with_rendition(
        n as u32,
    ));
    assert(renditions_selected(r, params, 0) == r.with_rendition(n as u32));
}

/// Among several parameters, each selects in turn; a palette colour takes three of them, and
/// a colour of three components takes five.
#[verifier::spinoff_prover]
#[verifier::rlimit(30)]
pub proof fn renditions_are_selected_in_turn(r: Renditions, params: Seq<int>, i: int)
    requires
        0 <= i < params.len(),
        forall|j: int| 0 <= j < params.len() ==> 0 <= #[trigger] params[j] <= 255,
    ensures
        params[i] != 38 && params[i] != 48 ==> renditions_selected(r, params, i)
            == renditions_selected(r.with_rendition(params[i] as u32), params, i + 1),
        i + 2 < params.len() && params[i] == 38 && params[i + 1] == 5 ==> renditions_selected(
            r,
            params,
            i,
        ) == renditions_selected(
            Renditions { foreground_color: (30 + params[i + 2]) as u32, ..r },
            params,
            i + 3,
        ),
        i + 2 < params.len() && params[i] == 48 && params[i + 1] == 5 ==> renditions_selected(
            r,
            params,
            i,
        ) == renditions_selected(
            Renditions { background_color: (40 + params[i + 2]) as u32, ..r },
            params,
            i + 3,
        ),
{
    let p = param_or(params, i, 0);
    assert(p == params[i]);
}

/// Where a tab leads: to the next stop, or to the end of the line if there is none.
pub open spec fn is_next_stop(stops: Seq<bool>, col: int, width: int, t: int) -> bool {
    ||| col < t < stops.len() && stops[t] && forall|x: int| col < x < t ==> !#[trigger] stops[x]
    ||| t == width - 1 && forall|x: int| col < x < stops.len() ==> !#[trigger] stops[x]
}

/// Where a back tab leads: to the stop before, or to the start of the line if there is none.
pub open spec fn is_stop_before(stops: Seq<bool>, col: int, t: int) -> bool {
    ||| 0 < t < col && stops[t] && forall|x: int| t < x < col ==> !#[trigger] stops[x]
    ||| t == 0 && forall|x: int| 0 < x < col ==> !#[trigger] stops[x]
}

proof fn lemma_tab_after(stops: Seq<bool>, from: int)
    requires
        0 <= from,
    ensures
        ({
            let t = tab_after(stops, from, 1);
            ||| from <= t < stops.len() && stops[t] && forall|x: int|
                from <= x < t ==> !#[trigger] stops[x]
            ||| t == -1 && forall|x: int| from <= x < stops.len() ==> !#[trigger] stops[x]
        }),
    decreases stops.len() - from,
{
    if from < stops.len() && !stops[from] {
        lemma_tab_after(stops, from + 1);
    }
}

proof fn lemma_tab_before(stops: Seq<bool>, from: int)
    requires
        from < stops.len(),
    ensures
        ({
            let t = tab_before(stops, from, 1);
            ||| 0 < t <= from && stops[t] && forall|x: int|
                t < x <= from ==> !#[trigger] stops[x]
            ||| t == 0 && forall|x: int| 0 < x <= from ==> !#[trigger] stops[x]
        }),
    decreases from,
{
    if from > 0 && !stops[from] {
        lemma_tab_before(stops, from - 1);
    }
}

/// A tab goes to the next stop, and a back tab to the one before; neither changes a cell.
#[verifier::spinoff_prover]
#[verifier::rlimit(30)]
pub proof fn tabs_go_to_the_stops(e: EmulatorView)
    requires
        e.settled(),
        e.screen.valid(),
        row_within(e.screen, e.screen.ds.geo.cursor_row) == e.screen.ds.geo.cursor_row,
        e.screen.ds.tabs.stops.len() == e.screen.ds.geo.width,
    ensures
        ({
            let s = e.screen;
            let (stops, col, width) = (
                s.ds.tabs.stops,
                s.ds.geo.cursor_col,
                s.ds.geo.width,
            );
            let (t, u, v) = (e.typed(seq!['\t']).screen, sent(e, None, 'I'), sent(e, None, 'Z'));
            &&& is_next_stop(stops, col, width, t.ds.geo.cursor_col)
            &&& is_next_stop(stops, col, width, u.ds.geo.cursor_col)
            &&& is_stop_before(stops, col, v.ds.geo.cursor_col)
            &&& t.rows == s.rows && u.rows == s.rows && v.rows == s.rows
            &&& t.ds.geo.cursor_row == s.ds.geo.cursor_row
            &&& u.ds.geo.cursor_row == s.ds.geo.cursor_row
            &&& v.ds.geo.cursor_row == s.ds.geo.cursor_row
            &&& t.ds.next_print_will_wrap == s.ds.next_print_will_wrap
            &&& t.ds.tabs == s.ds.tabs
        }),
{
    let s = e.screen;
    lemma_tab_after(s.ds.tabs.stops, s.ds.geo.cursor_col + 1);
    lemma_tab_before(s.ds.tabs.stops, s.ds.geo.cursor_col - 1);
    assert(params_in(Seq::empty()) =~= seq![-1int]);
    assert(e.typed(seq!['\t']).screen == s.tabbed(1)) by {
        lemma_typed_one(e, '\t');
        lemma_control(e, '\t');
        reveal(DispatcherView::screen_after);
        reveal(entry_for);
        reveal(performed);
        reveal(cursor_performed);
    }
    assert(sent(e, None, 'I') == s.tabbed(1)) by {
        lemma_csi(e, Seq::empty(), 'I');
        reveal(entry_for);
        reveal(performed);
        reveal(cursor_performed);
    }
    assert(sent(e, None, 'Z') == s.tabbed(-1)) by {
        lemma_csi(e, Seq::empty(), 'Z');
        reveal(entry_for);
        reveal(performed);
        reveal(cursor_performed);
    }
    reveal(DrawView::tabbed);
    reveal(GeometryView::col_moved);
}

/// A stop is set in the cursor's column, and cleared there; all of them can be cleared.
#[verifier::spinoff_prover]
#[verifier::rlimit(30)]
pub proof fn stops_are_set_and_cleared(e: EmulatorView)
    requires
        e.settled(),
        e.screen.valid(),
        e.screen.ds.tabs.stops.len() == e.screen.ds.geo.width,
    ensures
        ({
            let s = e.screen;
            let (stops, col) = (s.ds.tabs.stops, s.ds.geo.cursor_col);
            let t = e.typed(seq!['\x1b', 'H']).screen;
            let (u, v) = (sent(e, None, 'g'), sent(e, Some(3), 'g'));
            &&& t.ds.tabs.stops.len() == stops.len() && t.ds.tabs.stops[col]
            &&& u.ds.tabs.stops.len() == stops.len() && !u.ds.tabs.stops[col]
            &&& forall|x: int|
                0 <= x < stops.len() && x != col ==> #[trigger] t.ds.tabs.stops[x] == stops[x]
            &&& forall|x: int|
                0 <= x < stops.len() && x != col ==> #[trigger] u.ds.tabs.stops[x] == stops[x]
            &&& v.ds.tabs.stops.len() == stops.len()
            &&& forall|x: int| 0 <= x < stops.len() ==> !#[trigger] v.ds.tabs.stops[x]
            &&& t.rows == s.rows && u.rows == s.rows && v.rows == s.rows
            &&& t.ds.geo == s.ds.geo && u.ds.geo == s.ds.geo && v.ds.geo == s.ds.geo
        }),
{
    assert(e.typed(seq!['\x1b', 'H']).screen == unwrapped(e.screen).tab_set()) by {
        lemma_escape_sequence(e, 'H');
        reveal(DispatcherView::screen_after);
        reveal(entry_for);
        reveal(performed);
        reveal(cursor_performed);
    }
    lemma_one_param(3);
    assert(params_in(Seq::empty()) =~= seq![-1int]);
    lemma_csi(e, Seq::empty(), 'g');
    lemma_csi(e, decimal(3), 'g');
    assert(sent(e, None, 'g') == e.screen.tabs_cleared(0) && sent(e, Some(3), 'g')
        == e.screen.tabs_cleared(3)) by {
        reveal(entry_for);
        reveal(performed);
        reveal(cursor_performed);
    }
    reveal(Screen::tabs_cleared);
}

/// May a text stand in a title?
pub open spec fn is_title(t: Seq<char>) -> bool {
    t.len() < 254 && crate::typing::all_in_command(t)
}

/// Titles are taken as they are sent: of the window, of the icon, or of both.
#[verifier::spinoff_prover]
#[verifier::rlimit(30)]
pub proof fn titles_are_taken(e: EmulatorView, t: Seq<char>)
    requires
        e.settled(),
        is_title(t),
    ensures
        ({
            let s = e.screen;
            let both = e.typed(command(seq!['0', ';'] + t)).screen;
            let icon = e.typed(command(seq!['1', ';'] + t)).screen;
            let window = e.typed(command(seq!['2', ';'] + t)).screen;
            &&& both == (Screen {
                title_initialized: true,
                icon_name: t,
                window_title: t,
                ..s
            })
            &&& icon == (Screen { title_initialized: true, icon_name: t, ..s })
            &&& window == (Screen { title_initialized: true, window_title: t, ..s })
        }),
{
    lemma_title(e, t, '0');
    lemma_title(e, t, '1');
    lemma_title(e, t, '2');
}

proof fn lemma_title(e: EmulatorView, t: Seq<char>, c: char)
    requires
        e.settled(),
        is_title(t),
        c == '0' || c == '1' || c == '2',
    ensures
        e.typed(command(seq![c, ';'] + t)).screen == (Screen {
            title_initialized: true,
            icon_name: if c != '2' {
                t
            } else {
                e.screen.icon_name
            },
            window_title: if c != '1' {
                t
            } else {
                e.screen.window_title
            },
            ..e.screen
        }),
{
    let text = seq![c, ';'] + t;
    assert(crate::typing::all_in_command(text)) by {
        assert forall|i: int| 0 <= i < text.len() implies crate::typing::in_command(
            #[trigger] text[i],
        ) by {
            if i >= 2 {
                assert(text[i] == t[i - 2]);
            }
        }
    }
    lemma_command(e, text);
    reveal(osc_performed);
    assert(text[0] == c && text[1] == ';');
    reveal_with_fuel(crate::dispatcher::semicolon_from, 3);
    assert(crate::dispatcher::semicolon_from(text, 0) == 1);
    assert(crate::dispatcher::osc_title(text) =~= t);
}

/// What an application puts on the clipboard arrives there, and counts as a change.
#[verifier::spinoff_prover]
#[verifier::rlimit(30)]
pub proof fn clipboards_are_taken(e: EmulatorView, which: char, data: Seq<char>)
    requires
        e.settled(),
        crate::typing::in_command(which),
        crate::typing::all_in_command(data),
        data.len() + 5 <= crate::dispatcher::MAXIMUM_CLIPBOARD_SIZE,
    ensures
        e.typed(command(seq!['5', '2', ';', which, ';'] + data)).screen == (Screen {
            clipboard: seq![which, ';'] + data,
            clipboard_seq: e.screen.clipboard_seq.wrapping_add(1),
            ..e.screen
        }),
{
    let text = seq!['5', '2', ';', which, ';'] + data;
    assert(crate::typing::all_in_command(text)) by {
        assert forall|i: int| 0 <= i < text.len() implies crate::typing::in_command(
            #[trigger] text[i],
        ) by {
            if i >= 5 {
                assert(text[i] == data[i - 5]);
            }
        }
    }
    lemma_command(e, text);
    reveal(osc_performed);
    assert(text[0] == '5' && text[1] == '2' && text[2] == ';' && text[3] == which && text[4]
        == ';');
    reveal_with_fuel(crate::dispatcher::semicolon_from, 3);
    assert(crate::dispatcher::semicolon_from(text, 3) <= 4);
    assert(text.subrange(3, text.len() as int) =~= seq![which, ';'] + data);
}

/// A report of the cursor says where it is, counted from one; a report of the state says that
/// all is well; and the terminal says that it is a vt220.
#[verifier::spinoff_prover]
#[verifier::rlimit(30)]
pub proof fn reports_say_what_is_asked(d: DispatcherView, s: Screen)
    requires
        s.valid(),
        d.dispatch_chars.len() == 0,
    ensures
        ({
            let (row, col) = (s.ds.geo.cursor_row, s.ds.geo.cursor_col);
            &&& d.params == decimal(6) ==> d.dispatched(FunctionType::Csi, 'n', s).reply == d.reply
                + csi(decimal((row + 1) as nat) + ";"@ + decimal((col + 1) as nat), 'R')
            &&& d.params == decimal(5) ==> d.dispatched(FunctionType::Csi, 'n', s).reply == d.reply
                + csi(decimal(0), 'n')
            &&& d.params.len() == 0 ==> d.dispatched(FunctionType::Csi, 'c', s).reply == d.reply
                + private_csi(decimal(62), 'c')
        }),
{
    reveal(DispatcherView::dispatched);
    reveal(entry_for);
    lemma_one_param(6);
    lemma_one_param(5);
    reveal_strlit("\x1b[?62c");
    reveal_strlit("\x1b[0n");
    reveal_strlit("\x1b[");
    reveal_strlit("R");
    reveal_with_fuel(decimal, 3);
    let (row, col) = (s.ds.geo.cursor_row, s.ds.geo.cursor_col);
    let place = decimal((row + 1) as nat) + ";"@ + decimal((col + 1) as nat);
    assert("\x1b["@ + decimal((row + 1) as nat) + ";"@ + decimal((col + 1) as nat) + "R"@ =~= csi(
        place,
        'R',
    ));
    assert(decimal(0) =~= seq!['0']);
    assert("\x1b[0n"@ =~= csi(decimal(0), 'n'));
    assert(decimal(62) =~= seq!['6', '2']);
    assert("\x1b[?62c"@ =~= private_csi(decimal(62), 'c'));
    let n = seq!['n'];
    let c = seq!['c'];
    assert(d.dispatch_chars.push('n') =~= n);
    assert(d.dispatch_chars.push('c') =~= c);
}

/// A resized screen keeps what fits: each cell that it had and still has is as it was, but for
/// marking a wrap at the old edge, and each cell that is new is empty. The region becomes the
/// whole screen, and the cursor stays where it was, or as near as it can.
#[verifier::spinoff_prover]
#[verifier::rlimit(30)]
pub proof fn resized_screens_keep_what_fits(s: Screen, width: int, height: int)
    requires
        s.valid(),
        1 <= width <= crate::draw_state::MAX_DIMENSION,
        1 <= height <= crate::draw_state::MAX_DIMENSION,
        !s.ds.origin_mode,
        width != s.ds.geo.width || height != s.ds.geo.height,
    ensures
        ({
            let t = s.resized(width, height);
            &&& t.ds.geo.width == width && t.ds.geo.height == height
            &&& t.rows.len() == height
            &&& forall|y: int, x: int|
                #![trigger at(t, y, x)]
                0 <= y < height && 0 <= x < width ==> if on(s, y, x) {
                    at(t, y, x) == (CellView { wrap: at(t, y, x).wrap, ..at(s, y, x) })
                } else {
                    is_empty(at(t, y, x), s.ds.renditions.background_color)
                }
            &&& t.ds.geo.region_top == 0 && t.ds.geo.region_bottom == height - 1
            &&& t.ds.geo.cursor_row == (if s.ds.geo.cursor_row < height {
                s.ds.geo.cursor_row
            } else {
                height - 1
            })
            &&& t.ds.geo.cursor_col == (if s.ds.geo.cursor_col < width {
                s.ds.geo.cursor_col
            } else {
                width - 1
            })
            &&& t.ds.renditions == s.ds.renditions
            &&& t.window_title == s.window_title
        }),
{
    reveal(Screen::resized);
    reveal(DrawView::resized);
    reveal(GeometryView::resized);
    let t = s.resized(width, height);
    assert forall|y: int, x: int|
        #![trigger at(t, y, x)]
        0 <= y < height && 0 <= x < width implies (if on(s, y, x) {
        at(t, y, x) == (CellView { wrap: at(t, y, x).wrap, ..at(s, y, x) })
    } else {
        is_empty(at(t, y, x), s.ds.renditions.background_color)
    }) by {
        if y < s.rows.len() {
            assert(s.rows[y].cells.len() == s.ds.geo.width);
        }
    }
}

/// Columns that stay keep their tab stops; columns that are new get one in every eighth,
/// unless the stops were all cleared.
#[verifier::spinoff_prover]
#[verifier::rlimit(30)]
pub proof fn resized_screens_keep_their_stops(tabs: TabsView, width: int)
    requires
        width >= 0,
    ensures
        ({
            let t = tabs.resized(width);
            &&& t.stops.len() == width
            &&& forall|x: int|
                0 <= x < width ==> #[trigger] t.stops[x] == (if x < tabs.stops.len() {
                    tabs.stops[x]
                } else {
                    tabs.default_tabs && x % 8 == 0
                })
        }),
{
}

/// A soft reset sets back the modes, the region, the pen and what was saved of the cursor,
/// and changes no cell.
#[verifier::spinoff_prover]
#[verifier::rlimit(30)]
pub proof fn soft_resets_leave_the_cells(s: Screen)
    requires
        s.valid(),
    ensures
        ({
            let t = s.soft_reset();
            &&& t.rows == s.rows
            &&& !t.ds.insert_mode && !t.ds.origin_mode
            &&& t.ds.modes.cursor_visible && !t.ds.modes.application_mode_cursor_keys
            &&& t.ds.modes.reverse_video == s.ds.modes.reverse_video
            &&& t.ds.geo.region_top == 0 && t.ds.geo.region_bottom == s.ds.geo.height - 1
            &&& t.ds.geo.cursor_row == s.ds.geo.cursor_row
            &&& t.ds.geo.cursor_col == s.ds.geo.cursor_col
            &&& t.ds.renditions == Renditions {
                foreground_color: 0,
                background_color: 0,
                attributes: 0,
            }
            &&& t.ds.hyperlink is None
            &&& t.ds.auto_wrap_mode == s.ds.auto_wrap_mode
        }),
{
    reveal(DrawView::region_set);
    reveal(GeometryView::region_set);
}

/// The alignment test fills the screen.
#[verifier::spinoff_prover]
#[verifier::rlimit(30)]
pub proof fn the_alignment_test_fills_the_screen(s: Screen)
    requires
        s.valid(),
    ensures
        ({
            let t = s.filled('E');
            &&& t.ds == s.ds
            &&& forall|y: int, x: int|
                #![trigger at(t, y, x)]
                on(s, y, x) ==> at(t, y, x).contents == seq!['E']
        }),
{
    reveal(Screen::filled);
    let t = s.filled('E');
    assert forall|y: int, x: int| #![trigger at(t, y, x)] on(s, y, x) implies at(t, y, x).contents
        == seq!['E'] by {
        assert(s.rows[y].cells.len() == s.ds.geo.width);
    }
}

/// Cursor keys get the form that the host expects, and other keys are passed on as they are.
#[verifier::spinoff_prover]
#[verifier::rlimit(30)]
pub proof fn cursor_keys_get_the_form_that_is_expected(c: u8, application: bool)
    ensures
        ({
            let out = UserInputState::Ground.all_sent(seq![0x1bu8, 0x4fu8, c], application);
            if application || c < 0x41 || c > 0x44 {
                out == seq![0x1bu8, 0x4fu8, c]
            } else {
                out == seq![0x1bu8, 0x5bu8, c]
            }
        }),
        c != 0x4f ==> UserInputState::Ground.all_sent(seq![0x1bu8, c], application)
            == seq![0x1bu8, c],
        UserInputState::Ground.all_sent(seq![c], application) == seq![c],
{
    let g = UserInputState::Ground;
    let (one, two, three) = (seq![0x1bu8], seq![0x1bu8, 0x4fu8], seq![0x1bu8, 0x4fu8, c]);
    assert(three.drop_last() =~= two);
    assert(two.drop_last() =~= one);
    assert(one.drop_last() =~= Seq::empty());
    assert(seq![0x1bu8, c].drop_last() =~= one);
    assert(seq![c].drop_last() =~= Seq::empty());
    assert(g.all_sent(one.drop_last(), application) =~= Seq::empty());
    assert(g.after_all(one.drop_last()) == g);
    assert(g.after_all(one) == UserInputState::Esc);
    assert(g.all_sent(one, application) =~= one);
    assert(g.after_all(two) == UserInputState::Ss3);
    assert(g.all_sent(two, application) =~= one);
    assert(g.all_sent(seq![0x1bu8, c], application) =~= if c == 0x4f {
        one
    } else {
        seq![0x1bu8, c]
    });
    assert(g.all_sent(seq![c], application) =~= seq![c]);
    assert(g.all_sent(three, application) =~= if application || c < 0x41 || c > 0x44 {
        three
    } else {
        seq![0x1bu8, 0x5bu8, c]
    });
}

/// A prefix stands in front of the window title, and of the icon name while that is the same.
#[verifier::spinoff_prover]
#[verifier::rlimit(30)]
pub proof fn prefixes_stand_in_front_of_titles(s: Screen, prefix: Seq<char>)
    ensures
        s.title_prefixed(prefix).window_title == prefix + s.window_title,
        s.icon_name == s.window_title ==> s.title_prefixed(prefix).icon_name == prefix
            + s.icon_name,
        s.icon_name != s.window_title ==> s.title_prefixed(prefix).icon_name == s.icon_name,
{
}

/// A fresh terminal has a tab stop in every eighth column, and so has a resized one.
pub proof fn fresh_terminals_have_a_stop_in_every_eighth_column(width: int, height: int, x: int)
    requires
        0 <= x < width,
    ensures
        DrawView::initial(width, height).tabs.stops.len() == width,
        DrawView::initial(width, height).tabs.stops[x] == (x % 8 == 0),
        DrawView::initial(width, height).tabs.default_tabs,
{
}

} // verus!
