//! Terminals that follow frames: what is drawn on one is what it shows.

use vstd::prelude::*;
use vstd::utf8::*;

use crate::cell::{osc8_text, CellView, Link, Renditions, MAX_CELL_BYTES};
use crate::commands::{link_sendable, opened_links_are_read_back, selected_renditions_are_read_back};
use crate::dispatcher::{
    cursor_performed, entry_for, mode_performed, params_in, performed, private_modes_set,
    DispatcherView, MAX_PARAM_BYTES,
};
use crate::draw_state::{DrawView, GeometryView, Modes};
use crate::emulator::{print_width, EmulatorView};
use crate::frame::{repeated, FrameView};
use crate::framebuffer::{Screen, MAX_WINDOW_DIMENSION};
use crate::functions::PARAM_MAX;
use crate::text::decimal;
use crate::typing::{
    all_graphic, csi, is_graphic, is_params, lemma_control, lemma_csi, lemma_decimal_length,
    lemma_params_read_back, lemma_print, lemma_private_csi, lemma_typed_concat, lemma_typed_one,
    more_params, private_csi, unwrapped,
};
use crate::widths::WidthRange;

verus! {

impl Screen {
    /// Is this the screen of a terminal that draws plainly: text wraps and overwrites, and
    /// the whole of a window scrolls?
    pub open spec fn draws_plainly(self) -> bool {
        &&& self.valid()
        &&& self.ds.geo.width <= MAX_WINDOW_DIMENSION
        &&& self.ds.geo.height <= MAX_WINDOW_DIMENSION
        &&& self.ds.auto_wrap_mode
        &&& !self.ds.insert_mode
        &&& !self.ds.origin_mode
        &&& self.ds.geo.region_top == 0
        &&& self.ds.geo.region_bottom == self.ds.geo.height - 1
    }

    /// With the cursor moved, and no wrap pending.
    pub open spec fn cursor_at(self, y: int, x: int) -> Screen {
        self.with_ds(
            DrawView {
                geo: GeometryView {
                    cursor_row: y,
                    cursor_col: x,
                    combining_char_row: y,
                    combining_char_col: x,
                    ..self.ds.geo
                },
                next_print_will_wrap: false,
                ..self.ds
            },
        )
    }

    /// Does `after` differ from this screen in nothing but what drawing changes: cells, the
    /// cursor, renditions and the link?
    pub open spec fn drawn_over(self, after: Screen) -> bool {
        &&& after == Screen { rows: after.rows, next_gen: after.next_gen, ds: after.ds, ..self }
        &&& after.ds == DrawView {
            geo: GeometryView {
                cursor_row: after.ds.geo.cursor_row,
                cursor_col: after.ds.geo.cursor_col,
                combining_char_row: after.ds.geo.combining_char_row,
                combining_char_col: after.ds.geo.combining_char_col,
                ..self.ds.geo
            },
            renditions: after.ds.renditions,
            hyperlink: after.ds.hyperlink,
            next_print_will_wrap: after.ds.next_print_will_wrap,
            modes: Modes {
                cursor_visible: after.ds.modes.cursor_visible,
                ..self.ds.modes
            },
            ..self.ds
        }
    }
}

/// Is the terminal in the state that a frame takes it to be in? A position of -1 is not
/// known; the column after the last one stands for a pending wrap.
pub open spec fn tracks(f: FrameView, s: Screen) -> bool {
    &&& s.ds.renditions == f.rendition
    &&& s.ds.hyperlink == f.link
    &&& s.ds.modes.cursor_visible == f.visible
    &&& (f.x == -1 && f.y == -1) || (f.y == s.ds.geo.cursor_row && if s.ds.next_print_will_wrap {
        f.x == s.ds.geo.width && s.ds.geo.cursor_col == s.ds.geo.width - 1
    } else {
        f.x == s.ds.geo.cursor_col
    })
}

/// The screen of a terminal on which a frame was drawn.
pub open spec fn drawn(e: EmulatorView, f: FrameView) -> Screen {
    e.typed(f.out).screen
}

/// Does a terminal follow a frame that is drawn on it?
pub open spec fn follows(e: EmulatorView, f: FrameView) -> bool {
    let after = e.typed(f.out);
    &&& after.settled()
    &&& after.widths == e.widths
    &&& after.screen.draws_plainly()
    &&& tracks(f, after.screen)
}

/// What more text does to the terminal that a frame is drawn on.
pub proof fn lemma_text(e: EmulatorView, f: FrameView, t: Seq<char>)
    ensures
        e.typed(f.text(t).out) == e.typed(f.out).typed(t),
{
    lemma_typed_concat(e, f.out, t);
}

/// A carriage return moves the cursor to the first column.
pub proof fn lemma_return(e: EmulatorView)
    requires
        e.settled(),
        e.screen.valid(),
        !e.screen.ds.origin_mode,
    ensures
        e.shows(e.screen.cursor_at(e.screen.ds.geo.cursor_row, 0), e.char_fed('\r')),
{
    lemma_control(e, '\r');
    reveal(DispatcherView::screen_after);
    reveal(entry_for);
    reveal(performed);
    reveal(cursor_performed);
    reveal(DrawView::col_moved);
    reveal(GeometryView::col_moved);
}

/// A backspace moves the cursor one column to the left, unless it is in the first.
proof fn lemma_backspace(e: EmulatorView)
    requires
        e.settled(),
        e.screen.valid(),
        !e.screen.ds.origin_mode,
        e.screen.ds.geo.cursor_col > 0,
    ensures
        e.shows(
            e.screen.cursor_at(e.screen.ds.geo.cursor_row, e.screen.ds.geo.cursor_col - 1),
            e.char_fed('\u{8}'),
        ),
{
    lemma_control(e, '\u{8}');
    reveal(DispatcherView::screen_after);
    reveal(entry_for);
    reveal(performed);
    reveal(cursor_performed);
    reveal(DrawView::col_moved);
    reveal(GeometryView::col_moved);
}

/// The screen after a line feed.
pub proof fn lemma_line_feed_screen(e: EmulatorView)
    requires
        e.settled(),
    ensures
        e.shows(unwrapped(e.screen).autoscrolled(1), e.char_fed('\n')),
{
    lemma_control(e, '\n');
    reveal(DispatcherView::screen_after);
    reveal(entry_for);
    reveal(performed);
    reveal(cursor_performed);
}

/// A line feed above the bottom moves the cursor one row down.
pub proof fn lemma_line_feed(e: EmulatorView)
    requires
        e.settled(),
        e.screen.valid(),
        !e.screen.ds.origin_mode,
        e.screen.ds.geo.cursor_row != e.screen.ds.geo.region_bottom,
        e.screen.ds.geo.cursor_row < e.screen.ds.geo.height - 1,
    ensures
        e.shows(
            e.screen.cursor_at(e.screen.ds.geo.cursor_row + 1, e.screen.ds.geo.cursor_col),
            e.char_fed('\n'),
        ),
{
    lemma_line_feed_screen(e);
    reveal(Screen::autoscrolled);
    reveal(DrawView::row_moved);
    reveal(GeometryView::row_moved);
}

/// A character repeated once more is the shorter run and the character.
pub proof fn lemma_repeated_more(c: char, n: int)
    requires
        n >= 0,
    ensures
        repeated(c, n + 1).drop_last() == repeated(c, n),
        repeated(c, n + 1).last() == c,
        repeated(c, n + 1).len() == n + 1,
{
    assert(repeated(c, n + 1).drop_last() =~= repeated(c, n));
}

/// Line feeds that stay on the screen move the cursor down.
pub proof fn lemma_line_feeds(e: EmulatorView, n: int)
    requires
        e.settled(),
        e.screen.draws_plainly(),
        0 < n,
        e.screen.ds.geo.cursor_row + n < e.screen.ds.geo.height,
    ensures
        e.shows(
            e.screen.cursor_at(e.screen.ds.geo.cursor_row + n, e.screen.ds.geo.cursor_col),
            e.typed(repeated('\n', n)),
        ),
    decreases n,
{
    lemma_repeated_more('\n', n - 1);
    if n == 1 {
        lemma_line_feed(e);
        assert(repeated('\n', 0) =~= Seq::empty());
        assert(e.typed(repeated('\n', 0)) == e);
    } else {
        lemma_line_feeds(e, n - 1);
        lemma_line_feed(e.typed(repeated('\n', n - 1)));
    }
}

/// Backspaces move the cursor so many columns to the left.
proof fn lemma_backspaces(e: EmulatorView, n: int)
    requires
        e.settled(),
        e.screen.draws_plainly(),
        0 < n <= e.screen.ds.geo.cursor_col,
    ensures
        e.shows(
            e.screen.cursor_at(e.screen.ds.geo.cursor_row, e.screen.ds.geo.cursor_col - n),
            e.typed(repeated('\u{8}', n)),
        ),
    decreases n,
{
    lemma_repeated_more('\u{8}', n - 1);
    if n == 1 {
        lemma_backspace(e);
        assert(repeated('\u{8}', 0) =~= Seq::empty());
        assert(e.typed(repeated('\u{8}', 0)) == e);
    } else {
        lemma_backspaces(e, n - 1);
        lemma_backspace(e.typed(repeated('\u{8}', n - 1)));
    }
}

/// A position in a window takes at most five digits.
proof fn lemma_window_decimal(n: nat)
    requires
        n <= 99999,
    ensures
        decimal(n).len() <= 5,
{
    reveal_with_fuel(vstd::arithmetic::power::pow, 6);
    lemma_decimal_length(n, 5, 100000);
}

/// Two parameters.
pub proof fn lemma_two_params(a: nat, b: nat)
    requires
        a <= PARAM_MAX,
        b <= PARAM_MAX,
    ensures
        is_params(decimal(a) + ";"@ + decimal(b)),
        (decimal(a) + ";"@ + decimal(b)).len() < MAX_PARAM_BYTES,
        params_in(decimal(a) + ";"@ + decimal(b)) == seq![a as int, b as int],
{
    reveal_strlit(";");
    let list = seq![b as int];
    lemma_params_read_back(a, list);
    assert(list.drop_last() =~= Seq::empty());
    assert(more_params(list.drop_last()) =~= Seq::empty());
    assert(decimal(a) + more_params(list) =~= decimal(a) + ";"@ + decimal(b));
    assert(seq![a as int] + list =~= seq![a as int, b as int]);
    lemma_window_decimal(a);
    lemma_window_decimal(b);
}

/// One parameter.
pub proof fn lemma_one_param(a: nat)
    requires
        a <= PARAM_MAX,
    ensures
        is_params(decimal(a)),
        decimal(a).len() < MAX_PARAM_BYTES,
        params_in(decimal(a)) == seq![a as int],
{
    lemma_params_read_back(a, Seq::empty());
    assert(decimal(a) + more_params(Seq::empty()) =~= decimal(a));
    assert(seq![a as int] + Seq::<int>::empty() =~= seq![a as int]);
    lemma_window_decimal(a);
}

/// The text of an absolute movement.
pub open spec fn place_text(y: int, x: int) -> Seq<char> {
    "\x1b["@ + decimal((y + 1) as nat) + ";"@ + decimal((x + 1) as nat) + "H"@
}

/// The command that places the cursor places it.
pub proof fn lemma_placed(e: EmulatorView, y: int, x: int)
    requires
        e.settled(),
        e.screen.valid(),
        !e.screen.ds.origin_mode,
        0 <= y < e.screen.ds.geo.height,
        0 <= x < e.screen.ds.geo.width,
        e.screen.ds.geo.width <= PARAM_MAX,
        e.screen.ds.geo.height <= PARAM_MAX,
    ensures
        e.shows(e.screen.cursor_at(y, x), e.typed(place_text(y, x))),
{
    reveal_strlit("\x1b[");
    reveal_strlit(";");
    reveal_strlit("H");
    let (a, b) = ((y + 1) as nat, (x + 1) as nat);
    let params = decimal(a) + ";"@ + decimal(b);
    lemma_two_params(a, b);
    lemma_csi(e, params, 'H');
    assert(place_text(y, x) =~= csi(params, 'H'));
    reveal(entry_for);
    reveal(performed);
    reveal(cursor_performed);
    reveal(Screen::cursor_commanded);
    reveal(DrawView::row_moved);
    reveal(DrawView::col_moved);
    reveal(GeometryView::row_moved);
    reveal(GeometryView::col_moved);
}

/// The edge that a relative movement does not know of: after a character in the last
/// column the cursor is still there, one column short of where the frame takes it to be.
pub open spec fn backs_off_edge(f: FrameView, width: int, y: int, x: int) -> bool {
    f.x == width && y == f.y && x != 0 && x > width - 5
}

/// Movements of the cursor reach their place.
pub proof fn lemma_moved(e: EmulatorView, f: FrameView, y: int, x: int)
    requires
        follows(e, f),
        0 <= y < drawn(e, f).ds.geo.height,
        0 <= x < drawn(e, f).ds.geo.width,
        !backs_off_edge(f, drawn(e, f).ds.geo.width, y, x),
    ensures
        follows(e, f.moved(y, x)),
        drawn(e, f).drawn_over(drawn(e, f.moved(y, x))),
        drawn(e, f.moved(y, x)).rows == drawn(e, f).rows,
        !drawn(e, f.moved(y, x)).ds.next_print_will_wrap,
        drawn(e, f.moved(y, x)).ds.geo.cursor_row == y,
        drawn(e, f.moved(y, x)).ds.geo.cursor_col == x,
{
    reveal(FrameView::moved);
    let a = e.typed(f.out);
    let t = f.move_text(y, x);
    lemma_text(e, f, t);
    let known = f.x != -1 && f.y != -1;
    if known && x == 0 && 0 <= y - f.y < 5 {
        let n = y - f.y;
        let first = if f.x != 0 {
            seq!['\r']
        } else {
            Seq::empty()
        };
        lemma_typed_concat(a, first, repeated('\n', n));
        if f.x != 0 {
            lemma_return(a);
            lemma_typed_one(a, '\r');
        }
        let b = a.typed(first);
        if n > 0 {
            lemma_line_feeds(b, n);
        } else {
            assert(repeated('\n', n) =~= Seq::empty());
        }
    } else if known && y == f.y && -5 < x - f.x < 0 {
        lemma_backspaces(a, f.x - x);
    } else {
        lemma_placed(a, y, x);
    }
}

/// One private mode switched.
pub proof fn lemma_mode(e: EmulatorView, n: nat, on: bool)
    requires
        e.settled(),
        1 <= n <= PARAM_MAX,
    ensures
        e.shows(
            e.screen.private_mode_set(n as int, on),
            e.typed(private_csi(decimal(n), if on { 'h' } else { 'l' })),
        ),
{
    let c = if on {
        'h'
    } else {
        'l'
    };
    lemma_one_param(n);
    lemma_private_csi(e, decimal(n), c);
    reveal(entry_for);
    reveal(performed);
    reveal(cursor_performed);
    reveal(mode_performed);
    let params = seq![n as int];
    assert(seq!['?', c].len() == 2);
    let s = e.screen.private_mode_set(n as int, on);
    assert(private_modes_set(s, params, 1, on) == s);
    assert(private_modes_set(e.screen, params, 0, on) == s);
}

/// How the commands that hide and show the cursor are spelled.
pub proof fn lemma_hide_text()
    ensures
        "\x1b[?25l"@ == private_csi(decimal(25), 'l'),
        "\x1b[?25h"@ == private_csi(decimal(25), 'h'),
{
    reveal_strlit("\x1b[?25l");
    reveal_strlit("\x1b[?25h");
    reveal_with_fuel(decimal, 3);
    assert(decimal(25) =~= seq!['2', '5']);
    assert("\x1b[?25l"@ =~= private_csi(decimal(25), 'l'));
    assert("\x1b[?25h"@ =~= private_csi(decimal(25), 'h'));
}

/// The cursor shown or hidden.
pub proof fn lemma_visibility(e: EmulatorView, f: FrameView, on: bool)
    requires
        follows(e, f),
    ensures
        ({
            let g = FrameView {
                visible: on,
                ..f.text(
                    if on {
                        "\x1b[?25h"@
                    } else {
                        "\x1b[?25l"@
                    },
                )
            };
            &&& follows(e, g)
            &&& drawn(e, g) == drawn(e, f).with_ds(
                DrawView {
                    modes: Modes { cursor_visible: on, ..drawn(e, f).ds.modes },
                    ..drawn(e, f).ds
                },
            )
        }),
{
    lemma_hide_text();
    let a = e.typed(f.out);
    lemma_mode(a, 25, on);
    lemma_text(
        e,
        f,
        if on {
            "\x1b[?25h"@
        } else {
            "\x1b[?25l"@
        },
    );
    reveal(Screen::private_mode_set);
    reveal(DrawView::flag_switched);
}

/// A terminal that follows a frame follows it when the cursor is moved without being shown.
pub proof fn lemma_silently_moved(e: EmulatorView, f: FrameView, y: int, x: int)
    requires
        follows(e, f),
        0 <= y < drawn(e, f).ds.geo.height,
        0 <= x < drawn(e, f).ds.geo.width,
        !backs_off_edge(f, drawn(e, f).ds.geo.width, y, x),
    ensures
        follows(e, f.silently_moved(y, x)),
        drawn(e, f).drawn_over(drawn(e, f.silently_moved(y, x))),
        drawn(e, f.silently_moved(y, x)).rows == drawn(e, f).rows,
        !drawn(e, f.silently_moved(y, x)).ds.next_print_will_wrap,
        f.silently_moved(y, x).x == x,
        f.silently_moved(y, x).y == y,
        f.silently_moved(y, x).rendition == f.rendition,
        f.silently_moved(y, x).link == f.link,
{
    reveal(FrameView::silently_moved);
    reveal(FrameView::moved);
    if !(f.x == x && f.y == y) {
        if f.visible {
            lemma_visibility(e, f, false);
            lemma_moved(e, FrameView { visible: false, ..f.text("\x1b[?25l"@) }, y, x);
        } else {
            lemma_moved(e, f, y, x);
        }
    }
}

/// A terminal that follows a frame follows it when renditions are selected.
pub proof fn lemma_rendered(e: EmulatorView, f: FrameView, r: Renditions, force: bool)
    requires
        follows(e, f),
        r.selectable(),
    ensures
        follows(e, f.rendered(r, force)),
        drawn(e, f.rendered(r, force)) == drawn(e, f).with_ds(
            DrawView { renditions: r, ..drawn(e, f).ds },
        ),
{
    if force || f.rendition != r {
        selected_renditions_are_read_back(e.typed(f.out), r);
        lemma_text(e, f, r.sgr_text());
    }
}

/// A terminal that follows a frame follows it when a link is opened or closed.
pub proof fn lemma_linked(e: EmulatorView, f: FrameView, link: Option<Link>, force: bool)
    requires
        follows(e, f),
        link_sendable(link),
        f.x < drawn(e, f).ds.geo.width,
    ensures
        follows(e, f.linked(link, force)),
        drawn(e, f).drawn_over(drawn(e, f.linked(link, force))),
        drawn(e, f.linked(link, force)).rows == drawn(e, f).rows,
        drawn(e, f.linked(link, force)).ds.geo == drawn(e, f).ds.geo,
        drawn(e, f.linked(link, force)).ds.renditions == drawn(e, f).ds.renditions,
        drawn(e, f.linked(link, force)).ds.hyperlink == link,
        f.x != -1 ==> !drawn(e, f.linked(link, force)).ds.next_print_will_wrap,
{
    if force || f.link != link {
        opened_links_are_read_back(e.typed(f.out), link);
        lemma_text(e, f, osc8_text(link));
    }
}

impl CellView {
    /// Do two cells look the same? However a blank or a base is spelled does not show, nor
    /// does where text wraps.
    pub open spec fn looks_like(self, other: CellView) -> bool {
        &&& self.grapheme() == other.grapheme()
        &&& self.renditions == other.renditions
        &&& self.hyperlink == other.hyperlink
        &&& self.wide == other.wide
    }

    /// Can a terminal that takes characters to be this wide draw the cell: one character
    /// that has the width of the cell, and others that combine with it and fit in?
    pub open spec fn drawable(self, widths: Seq<WidthRange>) -> bool {
        &&& is_cluster(widths, self.grapheme(), self.columns())
        &&& self.renditions.selectable()
        &&& link_sendable(self.hyperlink)
    }
}

/// Is this one character of the given width, with others that combine with it and fit in?
pub open spec fn is_cluster(widths: Seq<WidthRange>, g: Seq<char>, columns: int) -> bool {
    &&& g.len() >= 1
    &&& all_graphic(g)
    &&& print_width(widths, g[0]) == columns
    &&& forall|i: int| 1 <= i < g.len() ==> print_width(widths, #[trigger] g[i]) == 0
    &&& forall|i: int|
        1 <= i < g.len() ==> encode_utf8(#[trigger] g.subrange(0, i)).len() < MAX_CELL_BYTES
}

impl Screen {
    /// With a cell put at the cursor, which moves past it. A wide one covers the next.
    pub open spec fn cell_put(self, cell: CellView) -> Screen {
        let geo = self.ds.geo;
        let s = self.with_cell(-1, -1, cell);
        let t = if cell.wide {
            s.with_cell(-1, geo.cursor_col + 1, CellView::blank(self.background()))
        } else {
            s
        };
        let col = geo.cursor_col + cell.columns();
        t.with_ds(
            DrawView {
                geo: GeometryView {
                    cursor_col: if col >= geo.width {
                        geo.width - 1
                    } else {
                        col
                    },
                    combining_char_col: geo.cursor_col,
                    combining_char_row: geo.cursor_row,
                    ..geo
                },
                next_print_will_wrap: col >= geo.width,
                ..self.ds
            },
        )
    }

    /// The cell that text makes at the cursor.
    pub open spec fn text_cell(self, g: Seq<char>, columns: int) -> CellView {
        CellView {
            contents: g,
            renditions: self.ds.renditions,
            hyperlink: self.ds.hyperlink,
            wide: columns == 2,
            fallback: false,
            wrap: false,
        }
    }
}

/// A character is printed into the cell under the cursor.
proof fn lemma_base_printed(s: Screen, widths: Seq<WidthRange>, c: char, columns: int)
    requires
        s.draws_plainly(),
        !s.ds.next_print_will_wrap,
        print_width(widths, c) == columns,
        columns == 1 || columns == 2,
        s.ds.geo.cursor_col + columns <= s.ds.geo.width,
    ensures
        s.printed(widths, c) == s.cell_put(s.text_cell(seq![c], columns)),
{
    reveal(Screen::printed);
    reveal(Screen::wrapped_for);
    reveal(Screen::room_made);
    reveal(Screen::char_put);
    reveal(DrawView::col_moved);
    reveal(GeometryView::col_moved);
}

/// A combining character joins the cell that was printed last.
proof fn lemma_combined(s: Screen, widths: Seq<WidthRange>, cell: CellView, c: char)
    requires
        s.draws_plainly(),
        s.ds.geo.cursor_col + cell.columns() <= s.ds.geo.width,
        print_width(widths, c) == 0,
        cell.contents.len() > 0,
        !cell.full(),
    ensures
        s.cell_put(cell).printed(widths, c) == s.cell_put(cell.appended(c)),
{
    reveal(Screen::printed);
    reveal(Screen::char_combined);
    let t = s.cell_put(cell);
    let (y, x) = (s.ds.geo.cursor_row, s.ds.geo.cursor_col);
    assert(s.rows[y].cells.len() == s.ds.geo.width);
    assert(t.cell_at(y, x) == cell);
    let u = t.with_cell(y, x, cell.appended(c));
    let v = s.cell_put(cell.appended(c));
    assert(u.rows[y].cells =~= v.rows[y].cells);
    assert(u.rows =~= v.rows);
}

/// A cluster that is printed becomes a cell.
pub proof fn lemma_cluster_printed(e: EmulatorView, g: Seq<char>, columns: int)
    requires
        e.settled(),
        e.screen.draws_plainly(),
        !e.screen.ds.next_print_will_wrap,
        is_cluster(e.widths, g, columns),
        columns == 1 || columns == 2,
        e.screen.ds.geo.cursor_col + columns <= e.screen.ds.geo.width,
    ensures
        e.typed(g) == (EmulatorView {
            screen: e.screen.cell_put(e.screen.text_cell(g, columns)),
            ..e
        }),
    decreases g.len(),
{
    let s = e.screen;
    if g.len() == 1 {
        assert(g =~= seq![g[0]]);
        lemma_typed_one(e, g[0]);
        assert(is_graphic(g[0]));
        lemma_print(e, g[0]);
        lemma_base_printed(s, e.widths, g[0], columns);
    } else {
        let before = g.drop_last();
        assert forall|i: int| 1 <= i < before.len() implies encode_utf8(
            #[trigger] before.subrange(0, i),
        ).len() < MAX_CELL_BYTES by {
            assert(before.subrange(0, i) =~= g.subrange(0, i));
        }
        assert forall|i: int| 0 <= i < before.len() implies is_graphic(#[trigger] before[i]) by {
            assert(before[i] == g[i]);
        }
        lemma_cluster_printed(e, before, columns);
        let m = e.typed(before);
        let c = g.last();
        assert(c == g[g.len() - 1]);
        assert(is_graphic(g[g.len() - 1]));
        assert(print_width(e.widths, g[g.len() - 1]) == 0);
        lemma_print(m, c);
        let cell = s.text_cell(before, columns);
        assert(g.subrange(0, g.len() - 1) =~= before);
        assert(encode_utf8(g.subrange(0, g.len() - 1)).len() < MAX_CELL_BYTES);
        lemma_combined(s, e.widths, cell, c);
        assert(before.push(c) =~= g);
    }
}

/// Do two screens have the same rows, but for some columns of one row?
pub open spec fn rows_differ_in(a: Screen, b: Screen, y: int, from: int, to: int) -> bool {
    &&& b.rows.len() == a.rows.len()
    &&& 0 <= y < a.rows.len()
    &&& forall|i: int| 0 <= i < a.rows.len() && i != y ==> #[trigger] b.rows[i] == a.rows[i]
    &&& b.rows[y].cells.len() == a.rows[y].cells.len()
    &&& forall|j: int|
        0 <= j < a.rows[y].cells.len() && !(from <= j < to) ==> #[trigger] b.rows[y].cells[j]
            == a.rows[y].cells[j]
}

/// Writing a cell where the cursor is leaves a screen that draws plainly so.
pub proof fn lemma_cell_put(s: Screen, cell: CellView)
    requires
        s.draws_plainly(),
        s.ds.geo.cursor_col + cell.columns() <= s.ds.geo.width,
    ensures
        ({
            let (y, x) = (s.ds.geo.cursor_row, s.ds.geo.cursor_col);
            let t = s.cell_put(cell);
            &&& t.draws_plainly()
            &&& s.drawn_over(t)
            &&& rows_differ_in(s, t, y, x, x + cell.columns())
            &&& t.rows[y].cells[x] == cell
            &&& cell.wide ==> t.rows[y].cells[x + 1] == CellView::blank(s.background())
        }),
{
    let y = s.ds.geo.cursor_row;
    assert(s.rows[y].cells.len() == s.ds.geo.width);
    let t = s.cell_put(cell);
    assert forall|i: int| 0 <= i < t.rows.len() implies (#[trigger] t.rows[i]).cells.len()
        == s.ds.geo.width by {
        assert(s.rows[i].cells.len() == s.ds.geo.width);
    }
}

/// A cell that is drawn is shown, and nothing around it changes; a wide one covers the
/// next.
pub proof fn lemma_cell_drawn(e: EmulatorView, f: FrameView, cell: CellView)
    requires
        follows(e, f),
        0 <= f.x,
        f.x + cell.columns() <= drawn(e, f).ds.geo.width,
        cell.drawable(e.widths),
        f.rendition == cell.renditions,
        f.link == cell.hyperlink,
    ensures
        ({
            let g = f.text(cell.grapheme()).at(f.y, f.x + cell.columns());
            let (s, t) = (drawn(e, f), drawn(e, g));
            &&& follows(e, g)
            &&& s.drawn_over(t)
            &&& rows_differ_in(s, t, f.y, f.x, f.x + cell.columns())
            &&& t.rows[f.y].cells[f.x].looks_like(cell)
            &&& cell.wide ==> t.rows[f.y].cells[f.x + 1] == CellView::blank(
                cell.renditions.background_color,
            )
        }),
{
    let a = e.typed(f.out);
    let s = a.screen;
    let g = cell.grapheme();
    let columns = cell.columns();
    lemma_text(e, f, g);
    lemma_cluster_printed(a, g, columns);
    lemma_cell_put(s, s.text_cell(g, columns));
}

/// A space in the renditions and the link that a frame has.
pub open spec fn space_cell(f: FrameView) -> CellView {
    CellView {
        contents: Seq::empty(),
        renditions: f.rendition,
        hyperlink: f.link,
        wide: false,
        fallback: false,
        wrap: false,
    }
}

/// A space can be drawn in any renditions.
proof fn lemma_space_drawable(widths: Seq<WidthRange>, f: FrameView)
    requires
        f.rendition.selectable(),
        link_sendable(f.link),
    ensures
        space_cell(f).drawable(widths),
{
    let g = space_cell(f).grapheme();
    assert(g =~= seq![' ']);
    assert(is_graphic(' '));
}

/// Spaces that are drawn are shown.
pub proof fn lemma_spaces_drawn(e: EmulatorView, f: FrameView, n: int)
    requires
        follows(e, f),
        0 <= f.x,
        0 <= n,
        f.x + n <= drawn(e, f).ds.geo.width,
        f.rendition.selectable(),
        link_sendable(f.link),
    ensures
        ({
            let g = f.text(repeated(' ', n)).at(f.y, f.x + n);
            let (s, t) = (drawn(e, f), drawn(e, g));
            &&& follows(e, g)
            &&& s.drawn_over(t)
            &&& n > 0 ==> rows_differ_in(s, t, f.y, f.x, f.x + n)
            &&& n == 0 ==> t.rows == s.rows
            &&& forall|j: int|
                f.x <= j < f.x + n ==> (#[trigger] t.rows[f.y].cells[j]).looks_like(space_cell(f))
        }),
    decreases n,
{
    if n == 0 {
        assert(f.out + repeated(' ', n) =~= f.out);
    } else {
        lemma_spaces_drawn(e, f, n - 1);
        let m = f.text(repeated(' ', n - 1)).at(f.y, f.x + (n - 1));
        lemma_space_drawable(e.widths, f);
        let cell = space_cell(f);
        lemma_cell_drawn(e, m, cell);
        lemma_repeated_more(' ', n - 1);
        let g = f.text(repeated(' ', n)).at(f.y, f.x + n);
        assert(cell.grapheme() =~= seq![' ']);
        assert(g.out =~= m.text(cell.grapheme()).out);
        let (s, u, t) = (drawn(e, f), drawn(e, m), drawn(e, g));
        assert(t == drawn(e, m.text(cell.grapheme()).at(m.y, m.x + cell.columns())));
        assert forall|j: int| f.x <= j < f.x + n implies (#[trigger] t.rows[f.y].cells[j]).looks_like(
            space_cell(f),
        ) by {
            if j < f.x + n - 1 {
                assert(t.rows[f.y].cells[j] == u.rows[f.y].cells[j]);
            }
        }
    }
}

/// The screen with the cells of the cursor's row from its column up to `to` emptied.
pub proof fn lemma_erased(s: Screen, to: int)
    requires
        s.draws_plainly(),
        s.ds.geo.cursor_col < to <= s.ds.geo.width,
    ensures
        ({
            let (y, x) = (s.ds.geo.cursor_row, s.ds.geo.cursor_col);
            let t = s.cells_erased(x, to);
            &&& t.draws_plainly()
            &&& s.drawn_over(t)
            &&& rows_differ_in(s, t, y, x, to)
            &&& forall|j: int|
                x <= j < to ==> #[trigger] t.rows[y].cells[j] == CellView::blank(s.background())
        }),
{
    let (y, x) = (s.ds.geo.cursor_row, s.ds.geo.cursor_col);
    let t = s.cells_erased(x, to);
    assert(s.rows[y].cells.len() == s.ds.geo.width);
    assert forall|i: int| 0 <= i < t.rows.len() implies (#[trigger] t.rows[i]).cells.len()
        == s.ds.geo.width by {
        assert(s.rows[i].cells.len() == s.ds.geo.width);
    }
}

/// An erased cell looks like a space where nothing but a background is selected.
pub proof fn lemma_blank_looks(f: FrameView)
    requires
        f.rendition == Renditions::plain(f.rendition.background_color),
        f.link is None,
    ensures
        CellView::blank(f.rendition.background_color).looks_like(space_cell(f)),
{
}

/// The erasure of the rest of a line.
pub proof fn lemma_line_erased(e: EmulatorView, f: FrameView)
    requires
        follows(e, f),
        0 <= f.x < drawn(e, f).ds.geo.width,
        f.rendition == Renditions::plain(f.rendition.background_color),
        f.link is None,
    ensures
        ({
            let g = f.text("\x1b[K"@);
            let (s, t) = (drawn(e, f), drawn(e, g));
            &&& follows(e, g)
            &&& s.drawn_over(t)
            &&& rows_differ_in(s, t, f.y, f.x, s.ds.geo.width)
            &&& forall|j: int|
                f.x <= j < s.ds.geo.width ==> (#[trigger] t.rows[f.y].cells[j]).looks_like(
                    space_cell(f),
                )
        }),
{
    reveal_strlit("\x1b[K");
    let a = e.typed(f.out);
    let s = a.screen;
    lemma_text(e, f, "\x1b[K"@);
    assert("\x1b[K"@ =~= csi(Seq::empty(), 'K'));
    lemma_csi(a, Seq::empty(), 'K');
    reveal(entry_for);
    reveal(performed);
    reveal(Screen::line_erased);
    assert(params_in(Seq::empty()) =~= seq![-1int]);
    assert(unwrapped(s) == s);
    lemma_erased(s, s.ds.geo.width);
    lemma_blank_looks(f);
}

/// The erasure of some characters.
pub proof fn lemma_chars_erased(e: EmulatorView, f: FrameView, n: int)
    requires
        follows(e, f),
        0 <= f.x,
        0 < n,
        f.x + n <= drawn(e, f).ds.geo.width,
        f.rendition == Renditions::plain(f.rendition.background_color),
        f.link is None,
    ensures
        ({
            let g = f.text("\x1b["@ + decimal(n as nat) + "X"@);
            let (s, t) = (drawn(e, f), drawn(e, g));
            &&& follows(e, g)
            &&& s.drawn_over(t)
            &&& rows_differ_in(s, t, f.y, f.x, f.x + n)
            &&& forall|j: int|
                f.x <= j < f.x + n ==> (#[trigger] t.rows[f.y].cells[j]).looks_like(space_cell(f))
        }),
{
    reveal_strlit("\x1b[");
    reveal_strlit("X");
    let a = e.typed(f.out);
    let s = a.screen;
    let text = "\x1b["@ + decimal(n as nat) + "X"@;
    lemma_text(e, f, text);
    assert(text =~= csi(decimal(n as nat), 'X'));
    lemma_one_param(n as nat);
    lemma_csi(a, decimal(n as nat), 'X');
    reveal(entry_for);
    reveal(performed);
    reveal(Screen::chars_erased);
    assert(unwrapped(s) == s);
    lemma_erased(s, f.x + n);
    lemma_blank_looks(f);
}

} // verus!
