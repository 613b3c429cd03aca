//! Everything about the screen that is not the cells themselves.

use vstd::prelude::*;

use crate::cell::{ColorType, Hyperlink, Link, Renditions};

verus! {

/// The largest width or height a screen can have. A row this wide would not fit in the
/// memory of any machine, and every cursor movement stays within an `i32` below it.
pub const MAX_DIMENSION: i32 = 0x4000_0000;

#[derive(Debug, Clone, Copy, PartialEq, Eq, Structural)]
pub struct SavedCursor {
    pub cursor_col: i32,
    pub cursor_row: i32,
    pub renditions: Renditions,
    pub auto_wrap_mode: bool,
    pub origin_mode: bool,
}

impl SavedCursor {
    /// What is restored when nothing was saved.
    pub open spec fn initial() -> SavedCursor {
        SavedCursor {
            cursor_col: 0,
            cursor_row: 0,
            renditions: Renditions::plain(0),
            auto_wrap_mode: true,
            origin_mode: false,
        }
    }
}

impl Default for SavedCursor {
    fn default() -> (res: Self)
        ensures
            res == SavedCursor::initial(),
    {
        SavedCursor {
            cursor_col: 0,
            cursor_row: 0,
            renditions: Renditions::new(0),
            auto_wrap_mode: true,
            origin_mode: false,
        }
    }
}

#[derive(Debug, Clone, Copy, PartialEq, Eq, Structural)]
pub enum MouseReportingMode {
    Off,
    X10,
    Vt220,
    Vt220Hilight,
    BtnEvent,
    AnyEvent,
}

impl MouseReportingMode {
    /// The number of the DEC private mode that selects this kind of reporting.
    pub open spec fn mode_number(self) -> int {
        match self {
            MouseReportingMode::Off => 0,
            MouseReportingMode::X10 => 9,
            MouseReportingMode::Vt220 => 1000,
            MouseReportingMode::Vt220Hilight => 1001,
            MouseReportingMode::BtnEvent => 1002,
            MouseReportingMode::AnyEvent => 1003,
        }
    }

    pub fn number(self) -> (n: u32)
        ensures
            n == self.mode_number(),
    {
        match self {
            MouseReportingMode::Off => 0,
            MouseReportingMode::X10 => 9,
            MouseReportingMode::Vt220 => 1000,
            MouseReportingMode::Vt220Hilight => 1001,
            MouseReportingMode::BtnEvent => 1002,
            MouseReportingMode::AnyEvent => 1003,
        }
    }
}

#[derive(Debug, Clone, Copy, PartialEq, Eq, Structural)]
pub enum MouseEncodingMode {
    Default,
    Utf8,
    Sgr,
    Urxvt,
}

impl MouseEncodingMode {
    /// The number of the DEC private mode that selects this encoding.
    pub open spec fn mode_number(self) -> int {
        match self {
            MouseEncodingMode::Default => 0,
            MouseEncodingMode::Utf8 => 1005,
            MouseEncodingMode::Sgr => 1006,
            MouseEncodingMode::Urxvt => 1015,
        }
    }

    pub fn number(self) -> (n: u32)
        ensures
            n == self.mode_number(),
    {
        match self {
            MouseEncodingMode::Default => 0,
            MouseEncodingMode::Utf8 => 1005,
            MouseEncodingMode::Sgr => 1006,
            MouseEncodingMode::Urxvt => 1015,
        }
    }
}

/// Modes that change how the screen is shown or keys are sent.
#[derive(Debug, Clone, Copy, PartialEq, Eq, Structural)]
pub struct Modes {
    pub cursor_visible: bool,
    pub reverse_video: bool,
    pub bracketed_paste: bool,
    pub application_mode_cursor_keys: bool,
}

impl Modes {
    /// The modes of a fresh terminal.
    pub open spec fn initial() -> Modes {
        Modes {
            cursor_visible: true,
            reverse_video: false,
            bracketed_paste: false,
            application_mode_cursor_keys: false,
        }
    }

    /// After the private mode with the given number was switched.
    pub open spec fn switched(self, param: int, value: bool) -> Modes {
        if param == 1 {
            Modes { application_mode_cursor_keys: value, ..self }
        } else if param == 5 {
            Modes { reverse_video: value, ..self }
        } else if param == 25 {
            Modes { cursor_visible: value, ..self }
        } else if param == 2004 {
            Modes { bracketed_paste: value, ..self }
        } else {
            self
        }
    }

    fn new() -> (m: Modes)
        ensures
            m == Modes::initial(),
    {
        Modes {
            cursor_visible: true,
            reverse_video: false,
            bracketed_paste: false,
            application_mode_cursor_keys: false,
        }
    }

    fn switch(&mut self, param: i32, value: bool)
        ensures
            *final(self) == old(self).switched(param as int, value),
    {
        match param {
            1 => self.application_mode_cursor_keys = value,
            5 => self.reverse_video = value,
            25 => self.cursor_visible = value,
            2004 => self.bracketed_paste = value,
            _ => {},
        }
    }
}

/// What the application wants to hear of the mouse.
#[derive(Debug, Clone, Copy, PartialEq, Eq, Structural)]
pub struct Mouse {
    pub reporting_mode: MouseReportingMode,
    pub focus_event: bool,
    pub alternate_scroll: bool,
    pub encoding_mode: MouseEncodingMode,
}

impl Mouse {
    /// No reports.
    pub open spec fn initial() -> Mouse {
        Mouse {
            reporting_mode: MouseReportingMode::Off,
            focus_event: false,
            alternate_scroll: false,
            encoding_mode: MouseEncodingMode::Default,
        }
    }

    /// After the private mode with the given number was switched.
    pub open spec fn switched(self, param: int, value: bool) -> Mouse {
        if param == 9 || 1000 <= param <= 1003 {
            Mouse {
                reporting_mode: if value {
                    mouse_reporting(param)
                } else {
                    MouseReportingMode::Off
                },
                ..self
            }
        } else if param == 1004 {
            Mouse { focus_event: value, ..self }
        } else if param == 1005 || param == 1006 || param == 1015 {
            Mouse {
                encoding_mode: if value {
                    mouse_encoding(param)
                } else {
                    MouseEncodingMode::Default
                },
                ..self
            }
        } else if param == 1007 {
            Mouse { alternate_scroll: value, ..self }
        } else {
            self
        }
    }

    fn new() -> (m: Mouse)
        ensures
            m == Mouse::initial(),
    {
        Mouse {
            reporting_mode: MouseReportingMode::Off,
            focus_event: false,
            alternate_scroll: false,
            encoding_mode: MouseEncodingMode::Default,
        }
    }

    fn switch(&mut self, param: i32, value: bool)
        ensures
            *final(self) == old(self).switched(param as int, value),
    {
        if param == 9 || (1000 <= param && param <= 1003) {
            self.reporting_mode =
            if value {
                mouse_reporting_for(param)
            } else {
                MouseReportingMode::Off
            };
        } else if param == 1004 {
            self.focus_event = value;
        } else if param == 1005 || param == 1006 || param == 1015 {
            self.encoding_mode =
            if value {
                mouse_encoding_for(param)
            } else {
                MouseEncodingMode::Default
            };
        } else if param == 1007 {
            self.alternate_scroll = value;
        }
    }
}

/// Which columns have tab stops, and whether columns that are added get the default ones.
pub struct TabsView {
    pub default_tabs: bool,
    pub stops: Seq<bool>,
}

impl TabsView {
    /// With the stop in one column set or cleared, if there is such a column.
    pub open spec fn with_stop(self, col: int, stop: bool) -> TabsView {
        if 0 <= col < self.stops.len() {
            TabsView { stops: self.stops.update(col, stop), ..self }
        } else {
            self
        }
    }

    /// With every stop cleared, for good.
    pub open spec fn cleared(self) -> TabsView {
        TabsView { default_tabs: false, stops: Seq::new(self.stops.len(), |i: int| false) }
    }

    /// After a change of width: columns that were there keep theirs, and new ones get the
    /// default unless the defaults were cleared.
    pub open spec fn resized(self, width: int) -> TabsView {
        TabsView {
            stops: Seq::new(
                width as nat,
                |i: int|
                    if i < self.stops.len() {
                        self.stops[i]
                    } else {
                        self.default_tabs && i % 8 == 0
                    },
            ),
            ..self
        }
    }
}

/// `x` moved into the range from `lo` to `hi`.
pub open spec fn clamped(x: int, lo: int, hi: int) -> int {
    if x < lo {
        lo
    } else if x > hi {
        hi
    } else {
        x
    }
}

/// The column of the `count`-th tab stop at or after `from`, or -1.
pub open spec fn tab_after(tabs: Seq<bool>, from: int, count: int) -> int
    decreases tabs.len() - from,
{
    if from < 0 || from >= tabs.len() {
        -1
    } else if tabs[from] {
        if count == 1 {
            from
        } else {
            tab_after(tabs, from + 1, count - 1)
        }
    } else {
        tab_after(tabs, from + 1, count)
    }
}

/// The column of the `count`-th tab stop at or before `from`, or 0.
pub open spec fn tab_before(tabs: Seq<bool>, from: int, count: int) -> int
    decreases from,
{
    if from <= 0 {
        0
    } else if tabs[from] {
        if count == 1 {
            from
        } else {
            tab_before(tabs, from - 1, count - 1)
        }
    } else {
        tab_before(tabs, from - 1, count)
    }
}

/// The size of the screen and the positions on it.
pub struct GeometryView {
    pub width: int,
    pub height: int,
    pub cursor_col: int,
    pub cursor_row: int,
    pub combining_char_col: int,
    pub combining_char_row: int,
    pub region_top: int,
    pub region_bottom: int,
}

impl GeometryView {
    /// A screen of the given size, with the cursor in its corner.
    pub open spec fn initial(width: int, height: int) -> GeometryView {
        GeometryView {
            width,
            height,
            cursor_col: 0,
            cursor_row: 0,
            combining_char_col: 0,
            combining_char_row: 0,
            region_top: 0,
            region_bottom: height - 1,
        }
    }

    /// The screen has a size, the cursor is on it, and the scrolling region lies in it.
    pub open spec fn valid(self) -> bool {
        &&& 1 <= self.width <= MAX_DIMENSION
        &&& 1 <= self.height <= MAX_DIMENSION
        &&& 0 <= self.cursor_col < self.width
        &&& 0 <= self.cursor_row < self.height
        &&& -1 <= self.combining_char_col < self.width
        &&& -1 <= self.combining_char_row < self.height
        &&& 0 <= self.region_top <= self.region_bottom < self.height
    }

    /// The first row the cursor may be moved to.
    pub open spec fn top(self, origin_mode: bool) -> int {
        if origin_mode {
            self.region_top
        } else {
            0
        }
    }

    /// The last row the cursor may be moved to.
    pub open spec fn bottom(self, origin_mode: bool) -> int {
        if origin_mode {
            self.region_bottom
        } else {
            self.height - 1
        }
    }

    /// The cursor brought back inside its limits.
    pub open spec fn snapped(self, origin_mode: bool) -> GeometryView {
        GeometryView {
            cursor_row: clamped(self.cursor_row, self.top(origin_mode), self.bottom(origin_mode)),
            cursor_col: clamped(self.cursor_col, 0, self.width - 1),
            ..self
        }
    }

    /// Combining characters now join the cell under the cursor.
    pub open spec fn with_new_grapheme(self) -> GeometryView {
        GeometryView {
            combining_char_col: self.cursor_col,
            combining_char_row: self.cursor_row,
            ..self
        }
    }

    /// After a move to row `n`, counted from the cursor or from the top limit.
    #[verifier::opaque]
    pub open spec fn row_moved(self, n: int, relative: bool, origin_mode: bool) -> GeometryView {
        let target = if relative {
            self.cursor_row + n
        } else {
            n + self.top(origin_mode)
        };
        (GeometryView { cursor_row: target, ..self }).snapped(origin_mode).with_new_grapheme()
    }

    /// After a move to column `target`. An implicit move follows a printed character and
    /// leaves the grapheme where it was printed.
    #[verifier::opaque]
    pub open spec fn col_moved(self, target: int, implicit: bool, origin_mode: bool) -> GeometryView {
        if implicit {
            (GeometryView { cursor_col: target, ..self.with_new_grapheme() }).snapped(origin_mode)
        } else {
            (GeometryView { cursor_col: target, ..self }).snapped(origin_mode).with_new_grapheme()
        }
    }

    /// The cursor put at a position, or as near as its limits allow.
    #[verifier::opaque]
    pub open spec fn cursor_put(self, col: int, row: int, origin_mode: bool) -> GeometryView {
        (GeometryView { cursor_col: col, cursor_row: row, ..self }).snapped(
            origin_mode,
        ).with_new_grapheme()
    }

    /// After the scrolling region was set.
    #[verifier::opaque]
    pub open spec fn region_set(self, top: int, bottom: int, origin_mode: bool) -> GeometryView {
        let t = if top < 0 {
            0
        } else {
            top
        };
        let b1 = if bottom >= self.height {
            self.height - 1
        } else {
            bottom
        };
        let b = if b1 < t {
            t
        } else {
            b1
        };
        let s = GeometryView { region_top: t, region_bottom: b, ..self };
        if origin_mode {
            s.snapped(origin_mode).with_new_grapheme()
        } else {
            s
        }
    }

    /// After a change of size. The scrolling region becomes the whole screen, the cursor
    /// stays on it, and a combining position that fell off is forgotten.
    #[verifier::opaque]
    pub open spec fn resized(self, width: int, height: int, origin_mode: bool) -> GeometryView {
        let changed = self.width != width || self.height != height;
        let s = GeometryView {
            width,
            height,
            region_top: if changed {
                0
            } else {
                self.region_top
            },
            region_bottom: if changed {
                height - 1
            } else {
                self.region_bottom
            },
            ..self
        }.snapped(origin_mode);
        if s.combining_char_col >= width || s.combining_char_row >= height {
            GeometryView { combining_char_col: -1, combining_char_row: -1, ..s }
        } else {
            s
        }
    }
}

/// The size of the screen and the positions on it.
#[derive(Debug, Clone, Copy)]
pub struct Geometry {
    pub(crate) width: i32,
    pub(crate) height: i32,
    pub(crate) cursor_col: i32,
    pub(crate) cursor_row: i32,
    pub(crate) combining_char_col: i32,
    pub(crate) combining_char_row: i32,
    pub(crate) region_top: i32,
    pub(crate) region_bottom: i32,
}

impl View for Geometry {
    type V = GeometryView;

    open(crate) spec fn view(&self) -> GeometryView {
        GeometryView {
            width: self.width as int,
            height: self.height as int,
            cursor_col: self.cursor_col as int,
            cursor_row: self.cursor_row as int,
            combining_char_col: self.combining_char_col as int,
            combining_char_row: self.combining_char_row as int,
            region_top: self.region_top as int,
            region_bottom: self.region_bottom as int,
        }
    }
}

fn clamp_i32(x: i32, lo: i32, hi: i32) -> (r: i32)
    ensures
        r == clamped(x as int, lo as int, hi as int),
{
    if x < lo {
        lo
    } else if x > hi {
        hi
    } else {
        x
    }
}

impl Geometry {
    fn new(width: i32, height: i32) -> (res: Self)
        requires
            height > i32::MIN,
        ensures
            res@ == GeometryView::initial(width as int, height as int),
    {
        Geometry {
            width,
            height,
            cursor_col: 0,
            cursor_row: 0,
            combining_char_col: 0,
            combining_char_row: 0,
            region_top: 0,
            region_bottom: height - 1,
        }
    }

    fn limit_top(&self, origin_mode: bool) -> (n: i32)
        ensures
            n == self@.top(origin_mode),
    {
        if origin_mode {
            self.region_top
        } else {
            0
        }
    }

    fn limit_bottom(&self, origin_mode: bool) -> (n: i32)
        requires
            i32::MIN < self@.height,
        ensures
            n == self@.bottom(origin_mode),
    {
        if origin_mode {
            self.region_bottom
        } else {
            self.height - 1
        }
    }

    fn new_grapheme(&mut self)
        ensures
            final(self)@ == old(self)@.with_new_grapheme(),
    {
        self.combining_char_col = self.cursor_col;
        self.combining_char_row = self.cursor_row;
    }

    fn snap_cursor_to_border(&mut self, origin_mode: bool)
        requires
            1 <= old(self)@.width,
            i32::MIN < old(self)@.height,
        ensures
            final(self)@ == old(self)@.snapped(origin_mode),
    {
        let top = self.limit_top(origin_mode);
        let bottom = self.limit_bottom(origin_mode);
        self.cursor_row = clamp_i32(self.cursor_row, top, bottom);
        self.cursor_col = clamp_i32(self.cursor_col, 0, self.width - 1);
    }

    fn move_row(&mut self, n: i32, relative: bool, origin_mode: bool)
        requires
            old(self)@.valid(),
            relative ==> i32::MIN <= old(self)@.cursor_row + n <= i32::MAX,
            !relative ==> n + old(self)@.top(origin_mode) <= i32::MAX,
        ensures
            final(self)@ == old(self)@.row_moved(n as int, relative, origin_mode),
            final(self)@.width == old(self)@.width,
            final(self)@.height == old(self)@.height,
            final(self)@.valid(),
    {
        reveal(GeometryView::row_moved);
        if relative {
            self.cursor_row = self.cursor_row + n;
        } else {
            self.cursor_row = n + self.limit_top(origin_mode);
        }
        self.snap_cursor_to_border(origin_mode);
        self.new_grapheme();
    }

    fn move_col(&mut self, target: i32, implicit: bool, origin_mode: bool)
        requires
            old(self)@.valid(),
        ensures
            final(self)@ == old(self)@.col_moved(target as int, implicit, origin_mode),
            final(self)@.width == old(self)@.width,
            final(self)@.height == old(self)@.height,
            final(self)@.valid(),
    {
        reveal(GeometryView::col_moved);
        if implicit {
            self.new_grapheme();
        }
        self.cursor_col = target;
        self.snap_cursor_to_border(origin_mode);
        if !implicit {
            self.new_grapheme();
        }
    }

    fn put_cursor(&mut self, col: i32, row: i32, origin_mode: bool)
        requires
            old(self)@.valid(),
        ensures
            final(self)@ == old(self)@.cursor_put(col as int, row as int, origin_mode),
            final(self)@.width == old(self)@.width,
            final(self)@.height == old(self)@.height,
            final(self)@.valid(),
    {
        reveal(GeometryView::cursor_put);
        self.cursor_col = col;
        self.cursor_row = row;
        self.snap_cursor_to_border(origin_mode);
        self.new_grapheme();
    }

    fn set_scrolling_region(&mut self, top: i32, bottom: i32, origin_mode: bool)
        requires
            old(self)@.valid(),
            top < old(self)@.height,
        ensures
            final(self)@ == old(self)@.region_set(top as int, bottom as int, origin_mode),
            final(self)@.width == old(self)@.width,
            final(self)@.height == old(self)@.height,
            final(self)@.valid(),
    {
        reveal(GeometryView::region_set);
        self.region_top = top;
        self.region_bottom = bottom;
        if self.region_top < 0 {
            self.region_top = 0;
        }
        if self.region_bottom >= self.height {
            self.region_bottom = self.height - 1;
        }
        if self.region_bottom < self.region_top {
            self.region_bottom = self.region_top;
        }
        // A two-line scrolling region is not enforced.

        if origin_mode {
            self.snap_cursor_to_border(origin_mode);
            self.new_grapheme();
        }
    }

    fn resize(&mut self, width: i32, height: i32, origin_mode: bool)
        requires
            old(self)@.valid(),
            1 <= width <= MAX_DIMENSION,
            1 <= height <= MAX_DIMENSION,
        ensures
            final(self)@ == old(self)@.resized(width as int, height as int, origin_mode),
            final(self)@.width == width,
            final(self)@.height == height,
            final(self)@.valid(),
    {
        reveal(GeometryView::resized);
        if self.width != width || self.height != height {
            // Any resize makes the whole screen the scrolling region again.
            self.region_top = 0;
            self.region_bottom = height - 1;
        }
        self.width = width;
        self.height = height;
        self.snap_cursor_to_border(origin_mode);
        // The saved cursor is snapped on restore instead.

        if self.combining_char_col >= self.width || self.combining_char_row >= self.height {
            self.combining_char_col = -1;
            self.combining_char_row = -1;
        }
    }
}

/// The draw state as a value.
pub struct DrawView {
    pub geo: GeometryView,
    pub tabs: TabsView,
    pub renditions: Renditions,
    pub hyperlink: Option<Link>,
    pub save: SavedCursor,
    pub next_print_will_wrap: bool,
    pub origin_mode: bool,
    pub auto_wrap_mode: bool,
    pub insert_mode: bool,
    pub modes: Modes,
    pub mouse: Mouse,
}

/// A tab stop in every eighth column.
pub open spec fn every_eighth(width: int) -> Seq<bool> {
    Seq::new(if width < 0 { 0nat } else { width as nat }, |i: int| i % 8 == 0)
}

/// The kind of mouse reports a private mode number names.
pub open spec fn mouse_reporting(param: int) -> MouseReportingMode {
    if param == 9 {
        MouseReportingMode::X10
    } else if param == 1000 {
        MouseReportingMode::Vt220
    } else if param == 1001 {
        MouseReportingMode::Vt220Hilight
    } else if param == 1002 {
        MouseReportingMode::BtnEvent
    } else {
        MouseReportingMode::AnyEvent
    }
}

/// The encoding of mouse reports a private mode number names.
pub open spec fn mouse_encoding(param: int) -> MouseEncodingMode {
    if param == 1005 {
        MouseEncodingMode::Utf8
    } else if param == 1006 {
        MouseEncodingMode::Sgr
    } else {
        MouseEncodingMode::Urxvt
    }
}

fn mouse_reporting_for(param: i32) -> (m: MouseReportingMode)
    ensures
        m == mouse_reporting(param as int),
{
    match param {
        9 => MouseReportingMode::X10,
        1000 => MouseReportingMode::Vt220,
        1001 => MouseReportingMode::Vt220Hilight,
        1002 => MouseReportingMode::BtnEvent,
        _ => MouseReportingMode::AnyEvent,
    }
}

fn mouse_encoding_for(param: i32) -> (m: MouseEncodingMode)
    ensures
        m == mouse_encoding(param as int),
{
    match param {
        1005 => MouseEncodingMode::Utf8,
        1006 => MouseEncodingMode::Sgr,
        _ => MouseEncodingMode::Urxvt,
    }
}

impl DrawView {
    /// The state of a fresh terminal.
    pub open spec fn initial(width: int, height: int) -> DrawView {
        DrawView {
            geo: GeometryView::initial(width, height),
            tabs: TabsView { default_tabs: true, stops: every_eighth(width) },
            renditions: Renditions::plain(0),
            hyperlink: None,
            save: SavedCursor::initial(),
            next_print_will_wrap: false,
            origin_mode: false,
            auto_wrap_mode: true,
            insert_mode: false,
            modes: Modes::initial(),
            mouse: Mouse::initial(),
        }
    }

    /// The positions are valid and there is a tab flag for each column.
    pub open spec fn valid(self) -> bool {
        &&& self.geo.valid()
        &&& self.tabs.stops.len() == self.geo.width
    }

    pub open spec fn width(self) -> int {
        self.geo.width
    }

    pub open spec fn height(self) -> int {
        self.geo.height
    }

    pub open spec fn cursor_row(self) -> int {
        self.geo.cursor_row
    }

    pub open spec fn cursor_col(self) -> int {
        self.geo.cursor_col
    }

    /// The first row the cursor may be moved to.
    pub open spec fn top(self) -> int {
        self.geo.top(self.origin_mode)
    }

    /// The last row the cursor may be moved to.
    pub open spec fn bottom(self) -> int {
        self.geo.bottom(self.origin_mode)
    }

    /// After a move to row `n`, counted from the cursor or from the top limit.
    #[verifier::opaque]
    pub open spec fn row_moved(self, n: int, relative: bool) -> DrawView {
        DrawView {
            geo: self.geo.row_moved(n, relative, self.origin_mode),
            next_print_will_wrap: false,
            ..self
        }
    }

    /// After a move to column `n`, counted from the cursor or from the left edge. An
    /// implicit move follows a printed character: it leaves the grapheme where it was
    /// printed, and past the last column it arms the wrap.
    #[verifier::opaque]
    pub open spec fn col_moved(self, n: int, relative: bool, implicit: bool) -> DrawView {
        self.col_put(
            if relative {
                self.geo.cursor_col + n
            } else {
                n
            },
            implicit,
        )
    }

    /// After a move to column `target`.
    pub open spec fn col_put(self, target: int, implicit: bool) -> DrawView {
        DrawView {
            geo: self.geo.col_moved(target, implicit, self.origin_mode),
            next_print_will_wrap: implicit && target >= self.geo.width,
            ..self
        }
    }

    /// The column a tab movement leads to: the `count`-th tab stop ahead, or back, or the
    /// end of the line.
    pub open spec fn tab_target(self, count: int) -> int {
        let stop = if count >= 0 {
            tab_after(self.tabs.stops, self.geo.cursor_col + 1, count)
        } else {
            tab_before(self.tabs.stops, self.geo.cursor_col - 1, -count)
        };
        if stop == -1 {
            self.geo.width - 1
        } else {
            stop
        }
    }

    /// After a tab movement. It is the only operation that preserves but does not set the
    /// wrap state, and it starts a new grapheme.
    #[verifier::opaque]
    pub open spec fn tabbed(self, count: int) -> DrawView {
        DrawView {
            geo: self.geo.col_moved(self.tab_target(count), false, self.origin_mode),
            ..self
        }
    }

    /// After the scrolling region was set.
    #[verifier::opaque]
    pub open spec fn region_set(self, top: int, bottom: int) -> DrawView {
        DrawView { geo: self.geo.region_set(top, bottom, self.origin_mode), ..self }
    }

    /// The cursor state saved.
    pub open spec fn cursor_saved(self) -> DrawView {
        DrawView {
            save: SavedCursor {
                cursor_col: self.geo.cursor_col as i32,
                cursor_row: self.geo.cursor_row as i32,
                renditions: self.renditions,
                auto_wrap_mode: self.auto_wrap_mode,
                origin_mode: self.origin_mode,
            },
            ..self
        }
    }

    /// The saved cursor state restored, inside the limits that hold now.
    #[verifier::opaque]
    pub open spec fn cursor_restored(self) -> DrawView {
        DrawView {
            geo: self.geo.cursor_put(
                self.save.cursor_col as int,
                self.save.cursor_row as int,
                self.save.origin_mode,
            ),
            renditions: self.save.renditions,
            auto_wrap_mode: self.save.auto_wrap_mode,
            origin_mode: self.save.origin_mode,
            ..self
        }
    }

    /// After a change of size.
    #[verifier::opaque]
    pub open spec fn resized(self, width: int, height: int) -> DrawView {
        DrawView {
            geo: self.geo.resized(width, height, self.origin_mode),
            tabs: self.tabs.resized(width),
            ..self
        }
    }

    /// After the private mode with the given number was switched. Numbers that stand for
    /// no flag change nothing.
    #[verifier::opaque]
    pub open spec fn flag_switched(self, param: int, value: bool) -> DrawView {
        DrawView {
            auto_wrap_mode: if param == 7 {
                value
            } else {
                self.auto_wrap_mode
            },
            modes: self.modes.switched(param, value),
            mouse: self.mouse.switched(param, value),
            ..self
        }
    }

    /// Do two states show the same? Only what affects the display is compared.
    pub open spec fn shows_same(self, other: DrawView) -> bool {
        &&& self.geo.width == other.geo.width
        &&& self.geo.height == other.geo.height
        &&& self.geo.cursor_col == other.geo.cursor_col
        &&& self.geo.cursor_row == other.geo.cursor_row
        &&& self.modes.cursor_visible == other.modes.cursor_visible
        &&& self.modes.reverse_video == other.modes.reverse_video
        &&& self.renditions == other.renditions
        &&& self.modes.bracketed_paste == other.modes.bracketed_paste
        &&& self.mouse == other.mouse
        &&& self.hyperlink == other.hyperlink
    }
}

/// Which columns have tab stops, and whether columns that are added get the default ones.
#[derive(Debug)]
pub struct TabStops {
    pub(crate) default_tabs: bool,
    pub(crate) stops: Vec<bool>,
}

impl View for TabStops {
    type V = TabsView;

    open(crate) spec fn view(&self) -> TabsView {
        TabsView { default_tabs: self.default_tabs, stops: self.stops@ }
    }
}

impl Clone for TabStops {
    fn clone(&self) -> (res: Self)
        ensures
            res@ == self@,
    {
        let stops = self.stops.clone();
        assert(stops@ =~= self.stops@);
        TabStops { default_tabs: self.default_tabs, stops }
    }
}

impl TabStops {
    fn set(&mut self, col: usize, stop: bool)
        ensures
            final(self)@ == old(self)@.with_stop(col as int, stop),
    {
        if col < self.stops.len() {
            self.stops.set(col, stop);
        }
    }

    fn clear_all(&mut self)
        ensures
            final(self)@ == old(self)@.cleared(),
    {
        let n: usize = self.stops.len();
        let mut stops: Vec<bool> = Vec::new();
        let mut i: usize = 0;
        while i < n
            invariant
                i <= n,
                stops@.len() == i,
                forall|k: int| 0 <= k < i ==> !(#[trigger] stops@[k]),
            decreases n - i,
        {
            stops.push(false);
            i = i + 1;
        }
        assert(stops@ =~= Seq::new(n as nat, |i: int| false));
        self.stops = stops;
        self.default_tabs = false;
    }

    fn resize(&mut self, columns: usize)
        ensures
            final(self)@ == old(self)@.resized(columns as int),
    {
        let defaults = self.default_tabs;
        resize_tabs(&mut self.stops, columns, defaults);
        assert(self.stops@ =~= old(self)@.resized(columns as int).stops);
    }
}

/// Everything about the screen that is not the cells themselves.
#[derive(Debug)]
pub struct DrawState {
    pub(crate) geo: Geometry,
    pub(crate) tabs: TabStops,
    pub(crate) renditions: Renditions,
    pub(crate) hyperlink: Hyperlink,
    pub(crate) save: SavedCursor,
    pub next_print_will_wrap: bool,
    pub origin_mode: bool,
    pub auto_wrap_mode: bool,
    pub insert_mode: bool,
    pub modes: Modes,
    pub mouse: Mouse,
}

impl View for DrawState {
    type V = DrawView;

    open(crate) spec fn view(&self) -> DrawView {
        DrawView {
            geo: self.geo@,
            tabs: self.tabs@,
            renditions: self.renditions,
            hyperlink: self.hyperlink@,
            save: self.save,
            next_print_will_wrap: self.next_print_will_wrap,
            origin_mode: self.origin_mode,
            auto_wrap_mode: self.auto_wrap_mode,
            insert_mode: self.insert_mode,
            modes: self.modes,
            mouse: self.mouse,
        }
    }
}

impl Clone for DrawState {
    fn clone(&self) -> (res: Self)
        ensures
            res@ == self@,
    {
        DrawState {
            geo: self.geo,
            tabs: self.tabs.clone(),
            renditions: self.renditions,
            hyperlink: self.hyperlink.clone(),
            save: self.save,
            next_print_will_wrap: self.next_print_will_wrap,
            origin_mode: self.origin_mode,
            auto_wrap_mode: self.auto_wrap_mode,
            insert_mode: self.insert_mode,
            modes: self.modes,
            mouse: self.mouse,
        }
    }
}

impl DrawState {
    pub fn new(width: i32, height: i32) -> (res: Self)
        requires
            height > i32::MIN,
        ensures
            res@ == DrawView::initial(width as int, height as int),
            1 <= width <= MAX_DIMENSION && 1 <= height <= MAX_DIMENSION ==> res@.valid(),
    {
        let columns: usize = if width < 0 {
            0
        } else {
            width as usize
        };
        let mut tabs: Vec<bool> = Vec::new();
        let mut i: usize = 0;
        while i < columns
            invariant
                i <= columns,
                tabs@.len() == i,
                forall|k: int| 0 <= k < i ==> tabs@[k] == (k % 8 == 0),
            decreases columns - i,
        {
            tabs.push(i % 8 == 0);
            i = i + 1;
        }
        assert(tabs@ =~= every_eighth(width as int));
        DrawState {
            geo: Geometry::new(width, height),
            tabs: TabStops { default_tabs: true, stops: tabs },
            renditions: Renditions::new(0),
            hyperlink: Hyperlink::default(),
            save: SavedCursor::default(),
            next_print_will_wrap: false,
            origin_mode: false,
            auto_wrap_mode: true,
            insert_mode: false,
            modes: Modes::new(),
            mouse: Mouse::new(),
        }
    }

    pub fn move_row(&mut self, n: i32, relative: bool)
        requires
            old(self)@.valid(),
            relative ==> i32::MIN <= old(self)@.cursor_row() + n <= i32::MAX,
            !relative ==> n + old(self)@.top() <= i32::MAX,
        ensures
            final(self)@ == old(self)@.row_moved(n as int, relative),
            final(self)@.geo.width == old(self)@.geo.width,
            final(self)@.geo.height == old(self)@.geo.height,
            final(self)@.valid(),
    {
        reveal(DrawView::row_moved);
        self.geo.move_row(n, relative, self.origin_mode);
        self.next_print_will_wrap = false;
    }

    pub fn move_col(&mut self, n: i32, relative: bool, implicit: bool)
        requires
            old(self)@.valid(),
            relative ==> i32::MIN <= old(self)@.cursor_col() + n <= i32::MAX,
        ensures
            final(self)@ == old(self)@.col_moved(n as int, relative, implicit),
            final(self)@.geo.width == old(self)@.geo.width,
            final(self)@.geo.height == old(self)@.geo.height,
            final(self)@.valid(),
    {
        reveal(DrawView::col_moved);
        if relative {
            self.put_col(self.geo.cursor_col + n, implicit);
        } else {
            self.put_col(n, implicit);
        }
    }

    fn put_col(&mut self, target: i32, implicit: bool)
        requires
            old(self)@.valid(),
        ensures
            final(self)@ == old(self)@.col_put(target as int, implicit),
            final(self)@.geo.width == old(self)@.geo.width,
            final(self)@.geo.height == old(self)@.geo.height,
            final(self)@.valid(),
    {
        self.next_print_will_wrap = implicit && target >= self.geo.width;
        self.geo.move_col(target, implicit, self.origin_mode);
    }

    pub fn cursor_col(&self) -> (n: i32)
        ensures
            n == self@.geo.cursor_col,
    {
        self.geo.cursor_col
    }

    pub fn cursor_row(&self) -> (n: i32)
        ensures
            n == self@.geo.cursor_row,
    {
        self.geo.cursor_row
    }

    pub fn combining_char_col(&self) -> (n: i32)
        ensures
            n == self@.geo.combining_char_col,
    {
        self.geo.combining_char_col
    }

    pub fn combining_char_row(&self) -> (n: i32)
        ensures
            n == self@.geo.combining_char_row,
    {
        self.geo.combining_char_row
    }

    pub fn width(&self) -> (n: i32)
        ensures
            n == self@.geo.width,
    {
        self.geo.width
    }

    pub fn height(&self) -> (n: i32)
        ensures
            n == self@.geo.height,
    {
        self.geo.height
    }

    pub fn set_tab(&mut self)
        requires
            0 <= old(self)@.geo.cursor_col,
        ensures
            final(self)@ == (DrawView {
                tabs: old(self)@.tabs.with_stop(old(self)@.geo.cursor_col, true),
                ..old(self)@
            }),
    {
        self.tabs.set(self.geo.cursor_col as usize, true);
    }

    pub fn clear_tab(&mut self, col: i32)
        ensures
            final(self)@ == (DrawView {
                tabs: old(self)@.tabs.with_stop(col as int, false),
                ..old(self)@
            }),
    {
        if col >= 0 {
            self.tabs.set(col as usize, false);
        }
    }

    /// Default tabs cannot be restored without resetting the draw state.
    pub fn clear_default_tabs(&mut self)
        ensures
            final(self)@ == (DrawView {
                tabs: TabsView { default_tabs: false, ..old(self)@.tabs },
                ..old(self)@
            }),
    {
        self.tabs.default_tabs = false;
    }

    /// Clears every tab stop, for good.
    pub fn clear_all_tabs(&mut self)
        ensures
            final(self)@ == (DrawView { tabs: old(self)@.tabs.cleared(), ..old(self)@ }),
    {
        self.tabs.clear_all();
    }

    /// Switches the flag that a private mode number stands for.
    pub fn switch_flag(&mut self, param: i32, value: bool)
        requires
            old(self)@.valid(),
        ensures
            final(self)@ == old(self)@.flag_switched(param as int, value),
            final(self)@.geo == old(self)@.geo,
            final(self)@.valid(),
    {
        reveal(DrawView::flag_switched);
        if param == 7 {
            self.auto_wrap_mode = value;
        }
        self.modes.switch(param, value);
        self.mouse.switch(param, value);
    }

    /// The column of the `count`-th tab stop after the cursor, or -1; with a negative
    /// count, of the one before it, or 0.
    pub fn next_tab(&self, count: i32) -> (col: i32)
        requires
            self@.valid(),
        ensures
            col == if count >= 0 {
                tab_after(self@.tabs.stops, self@.geo.cursor_col + 1, count as int)
            } else {
                tab_before(self@.tabs.stops, self@.geo.cursor_col - 1, -count)
            },
            -1 <= col < self@.geo.width,
    {
        if count >= 0 {
            let mut left: i32 = count;
            let mut i: i32 = self.geo.cursor_col + 1;
            while i < self.geo.width
                invariant
                    self@.valid(),
                    count >= 0,
                    self@.geo.cursor_col < i <= self@.geo.width,
                    -i <= left <= count,
                    tab_after(self@.tabs.stops, self@.geo.cursor_col + 1, count as int) == tab_after(
                        self@.tabs.stops,
                        i as int,
                        left as int,
                    ),
                decreases self.geo.width - i,
            {
                if self.tabs.stops[i as usize] {
                    if left == 1 {
                        return i;
                    }
                    left = left - 1;
                }
                i = i + 1;
            }
            return -1;
        }
        let mut left: i32 = count;
        let mut i: i32 = self.geo.cursor_col - 1;
        while i > 0
            invariant
                self@.valid(),
                count < 0,
                -1 <= i < self@.geo.cursor_col,
                count <= left < 0,
                tab_before(self@.tabs.stops, self@.geo.cursor_col - 1, -count) == tab_before(
                    self@.tabs.stops,
                    i as int,
                    -left,
                ),
            decreases i,
        {
            if self.tabs.stops[i as usize] {
                if left == -1 {
                    return i;
                }
                left = left + 1;
            }
            i = i - 1;
        }
        0
    }

    /// Moves to a tab stop; to the end of the line if there is none ahead.
    pub fn tab(&mut self, count: i32)
        requires
            old(self)@.valid(),
        ensures
            final(self)@ == old(self)@.tabbed(count as int),
            final(self)@.geo.width == old(self)@.geo.width,
            final(self)@.geo.height == old(self)@.geo.height,
            final(self)@.valid(),
    {
        reveal(DrawView::tabbed);
        let mut col: i32 = self.next_tab(count);
        if col == -1 {
            col = self.geo.width - 1;
        }
        self.geo.move_col(col, false, self.origin_mode);
    }

    pub fn set_scrolling_region(&mut self, top: i32, bottom: i32)
        requires
            old(self)@.valid(),
            top < old(self)@.height(),
        ensures
            final(self)@ == old(self)@.region_set(top as int, bottom as int),
            final(self)@.geo.width == old(self)@.geo.width,
            final(self)@.geo.height == old(self)@.geo.height,
            final(self)@.valid(),
    {
        reveal(DrawView::region_set);
        self.geo.set_scrolling_region(top, bottom, self.origin_mode);
    }

    pub fn scrolling_region_top_row(&self) -> (n: i32)
        ensures
            n == self@.geo.region_top,
    {
        self.geo.region_top
    }

    pub fn scrolling_region_bottom_row(&self) -> (n: i32)
        ensures
            n == self@.geo.region_bottom,
    {
        self.geo.region_bottom
    }

    pub fn limit_top(&self) -> (n: i32)
        ensures
            n == self@.top(),
    {
        self.geo.limit_top(self.origin_mode)
    }

    pub fn limit_bottom(&self) -> (n: i32)
        requires
            i32::MIN < self@.height(),
        ensures
            n == self@.bottom(),
    {
        self.geo.limit_bottom(self.origin_mode)
    }

    pub fn hyperlink(&self) -> (l: &Hyperlink)
        ensures
            l@ == self@.hyperlink,
    {
        &self.hyperlink
    }

    pub fn set_hyperlink(&mut self, x: Hyperlink)
        ensures
            final(self)@ == (DrawView { hyperlink: x@, ..old(self)@ }),
    {
        self.hyperlink = x;
    }

    pub fn set_foreground_color(&mut self, x: i32)
        ensures
            final(self)@ == (DrawView {
                renditions: old(self)@.renditions.with_foreground(x),
                ..old(self)@
            }),
    {
        self.renditions.set_foreground_color(x);
    }

    pub fn set_background_color(&mut self, x: i32)
        ensures
            final(self)@ == (DrawView {
                renditions: old(self)@.renditions.with_background(x),
                ..old(self)@
            }),
    {
        self.renditions.set_background_color(x);
    }

    pub fn add_rendition(&mut self, x: ColorType)
        ensures
            final(self)@ == (DrawView {
                renditions: old(self)@.renditions.with_rendition(x),
                ..old(self)@
            }),
    {
        self.renditions.set_rendition(x);
    }

    pub fn renditions(&self) -> (r: &Renditions)
        ensures
            *r == self@.renditions,
    {
        &self.renditions
    }

    pub fn renditions_mut(&mut self) -> (r: &mut Renditions)
        ensures
            *r == old(self)@.renditions,
            final(self)@ == (DrawView { renditions: *final(r), ..old(self)@ }),
    {
        &mut self.renditions
    }

    pub fn background_rendition(&self) -> (c: ColorType)
        ensures
            c == self@.renditions.background_color,
    {
        self.renditions.background_rendition()
    }

    pub fn save_cursor(&mut self)
        ensures
            final(self)@ == old(self)@.cursor_saved(),
    {
        self.save =
        SavedCursor {
            cursor_col: self.geo.cursor_col,
            cursor_row: self.geo.cursor_row,
            renditions: self.renditions,
            auto_wrap_mode: self.auto_wrap_mode,
            origin_mode: self.origin_mode,
        };
    }

    pub fn restore_cursor(&mut self)
        requires
            old(self)@.valid(),
        ensures
            final(self)@ == old(self)@.cursor_restored(),
            final(self)@.geo.width == old(self)@.geo.width,
            final(self)@.geo.height == old(self)@.geo.height,
            final(self)@.valid(),
    {
        reveal(DrawView::cursor_restored);
        self.renditions = self.save.renditions;
        self.auto_wrap_mode = self.save.auto_wrap_mode;
        self.origin_mode = self.save.origin_mode;
        // The screen could have been resized meanwhile.
        self.geo.put_cursor(self.save.cursor_col, self.save.cursor_row, self.origin_mode);
    }

    pub fn clear_saved_cursor(&mut self)
        ensures
            final(self)@ == (DrawView { save: SavedCursor::initial(), ..old(self)@ }),
    {
        self.save = SavedCursor::default();
    }

    pub fn resize(&mut self, width: i32, height: i32)
        requires
            old(self)@.valid(),
            1 <= width <= MAX_DIMENSION,
            1 <= height <= MAX_DIMENSION,
        ensures
            final(self)@ == old(self)@.resized(width as int, height as int),
            final(self)@.geo.width == width,
            final(self)@.geo.height == height,
            final(self)@.valid(),
    {
        reveal(DrawView::resized);
        self.tabs.resize(width as usize);
        self.geo.resize(width, height, self.origin_mode);
    }
}

fn resize_tabs(tabs: &mut Vec<bool>, columns: usize, defaults: bool)
    ensures
        final(tabs)@.len() == columns,
        forall|k: int|
            0 <= k < columns ==> #[trigger] final(tabs)@[k] == if k < old(tabs)@.len() {
                old(tabs)@[k]
            } else {
                defaults && k % 8 == 0
            },
{
    if tabs.len() > columns {
        tabs.truncate(columns);
    }
    let mut i: usize = tabs.len();
    while i < columns
        invariant
            i <= columns,
            i < columns ==> old(tabs)@.len() <= i,
            tabs@.len() == i,
            forall|k: int|
                0 <= k < i ==> #[trigger] tabs@[k] == if k < old(tabs)@.len() {
                    old(tabs)@[k]
                } else {
                    defaults && k % 8 == 0
                },
        decreases columns - i,
    {
        tabs.push(defaults && i % 8 == 0);
        i = i + 1;
    }
}

impl PartialEq for DrawState {
    /// Compares only what affects the display.
    fn eq(&self, other: &Self) -> (r: bool) {
        self.geo.width == other.geo.width && self.geo.height == other.geo.height
            && self.geo.cursor_col == other.geo.cursor_col && self.geo.cursor_row
            == other.geo.cursor_row && self.modes.cursor_visible == other.modes.cursor_visible
            && self.modes.reverse_video == other.modes.reverse_video && self.renditions
            == other.renditions && self.modes.bracketed_paste == other.modes.bracketed_paste
            && self.mouse == other.mouse && self.hyperlink == other.hyperlink
    }
}

impl vstd::std_specs::cmp::PartialEqSpecImpl for DrawState {
    open spec fn obeys_eq_spec() -> bool {
        true
    }

    open spec fn eq_spec(&self, other: &Self) -> bool {
        self@.shows_same(other@)
    }
}

impl Eq for DrawState {

}

/// Saving the cursor and restoring it brings back its position, renditions and modes,
/// however they were changed in between, as long as size and region stayed the same and
/// the position was inside its limits when it was saved.
pub proof fn restoring_undoes_changes_since_the_save(before: DrawView, after: DrawView)
    requires
        before.valid(),
        before.top() <= before.cursor_row() <= before.bottom(),
        after.save == before.cursor_saved().save,
        after.geo.width == before.geo.width,
        after.geo.height == before.geo.height,
        after.geo.region_top == before.geo.region_top,
        after.geo.region_bottom == before.geo.region_bottom,
    ensures
        after.cursor_restored().cursor_col() == before.cursor_col(),
        after.cursor_restored().cursor_row() == before.cursor_row(),
        after.cursor_restored().renditions == before.renditions,
        after.cursor_restored().auto_wrap_mode == before.auto_wrap_mode,
        after.cursor_restored().origin_mode == before.origin_mode,
{
    reveal(GeometryView::cursor_put);
    reveal(DrawView::cursor_restored);
}

} // verus!
