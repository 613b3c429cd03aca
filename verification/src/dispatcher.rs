//! Running the function that an escape sequence or control character selects.

use vstd::prelude::*;
use vstd::string::*;
use vstd::utf8::*;

use crate::cell::{Hyperlink, Link, Renditions};
use crate::draw_state::DrawView;
use crate::framebuffer::{Framebuffer, Screen};
use crate::functions::{
    backspace, clear_tabs, command_cursor, delete_cells, delete_lines, erase_chars, erase_display, erase_line,
    fill_screen, insert_cells, insert_lines, line_feed, move_to_col, move_to_row, new_line,
    restore_cursor, save_cursor, set_insert_mode, set_margins, set_private_mode, set_renditions,
    set_tab, tab, PARAM_MAX,
};
use crate::text::{chars_of, decimal, push_decimal, string_of};

verus! {

/// Which table a dispatch key is looked up in.
#[derive(Debug, Clone, Copy, PartialEq, Eq, Structural)]
pub enum FunctionType {
    Escape,
    Csi,
    Control,
}

/// Enough for 16 five-character parameters plus 15 semicolons.
pub const MAX_PARAM_BYTES: usize = 100;

/// Never needs more than two, but leave room.
pub const MAX_DISPATCH_CHARS: usize = 8;

pub const MAXIMUM_CLIPBOARD_SIZE: usize = 16384;

/// A terminal function.
#[derive(Debug, Clone, Copy, PartialEq, Eq, Structural)]
pub enum Function {
    EraseLine,
    EraseDisplay,
    CursorMove,
    DeviceAttributes,
    SecondaryDeviceAttributes,
    CursorTab,
    TabClear,
    SetPrivateModes,
    ClearPrivateModes,
    SetModes,
    ClearModes,
    SetMargins,
    SelectRendition,
    DeviceStatus,
    InsertLines,
    DeleteLines,
    InsertCells,
    DeleteCells,
    LinePosition,
    CharPosition,
    EraseChars,
    SoftReset,
    ScrollDown,
    ScrollUp,
    AlignmentTest,
    SaveCursor,
    RestoreCursor,
    FullReset,
    LineFeed,
    CarriageReturn,
    Backspace,
    ReverseIndex,
    NextLine,
    Tab,
    TabSet,
    Bell,
}

/// An entry of the dispatch table. Most functions cancel a pending wrap; a few
/// deliberately preserve it.
pub struct Entry {
    pub function: Function,
    pub clears_wrap_state: bool,
}

/// A function that cancels a pending wrap.
pub open spec fn plain_entry(function: Function) -> Option<Entry> {
    Some(Entry { function, clears_wrap_state: true })
}

/// A function that preserves a pending wrap.
pub open spec fn wrap_keeping_entry(function: Function) -> Option<Entry> {
    Some(Entry { function, clears_wrap_state: false })
}

fn entry(function: Function) -> (e: Option<Entry>)
    ensures
        e == plain_entry(function),
{
    Some(Entry { function, clears_wrap_state: true })
}

fn entry_keeping_wrap(function: Function) -> (e: Option<Entry>)
    ensures
        e == wrap_keeping_entry(function),
{
    Some(Entry { function, clears_wrap_state: false })
}

/// The functions whose key is a single final character of a control sequence.
pub open spec fn csi_entry(c: char) -> Option<Entry> {
    match c {
        'K' => plain_entry(Function::EraseLine),
        'J' => plain_entry(Function::EraseDisplay),
        'A' | 'B' | 'C' | 'D' | 'H' | 'f' => plain_entry(Function::CursorMove),
        'c' => plain_entry(Function::DeviceAttributes),
        'I' | 'Z' => wrap_keeping_entry(Function::CursorTab),
        'g' => wrap_keeping_entry(Function::TabClear),
        'h' => plain_entry(Function::SetModes),
        'l' => plain_entry(Function::ClearModes),
        'r' => plain_entry(Function::SetMargins),
        'm' => wrap_keeping_entry(Function::SelectRendition),
        'n' => plain_entry(Function::DeviceStatus),
        'L' => plain_entry(Function::InsertLines),
        'M' => plain_entry(Function::DeleteLines),
        '@' => plain_entry(Function::InsertCells),
        'P' => plain_entry(Function::DeleteCells),
        'd' => plain_entry(Function::LinePosition),
        'G' | '`' => plain_entry(Function::CharPosition),
        'X' => plain_entry(Function::EraseChars),
        'S' => plain_entry(Function::ScrollDown),
        'T' => plain_entry(Function::ScrollUp),
        _ => None,
    }
}

/// The functions whose key is an intermediate and a final character of a control sequence.
pub open spec fn csi_pair_entry(a: char, b: char) -> Option<Entry> {
    if a == '>' && b == 'c' {
        plain_entry(Function::SecondaryDeviceAttributes)
    } else if a == '?' && b == 'h' {
        wrap_keeping_entry(Function::SetPrivateModes)
    } else if a == '?' && b == 'l' {
        wrap_keeping_entry(Function::ClearPrivateModes)
    } else if a == '!' && b == 'p' {
        plain_entry(Function::SoftReset)
    } else {
        None
    }
}

/// The functions of control characters. Index, vertical tab and form feed all behave as a
/// line feed.
pub open spec fn control_entry(c: char) -> Option<Entry> {
    match c {
        '\x0a' | '\u{84}' | '\x0b' | '\x0c' => plain_entry(Function::LineFeed),
        '\x0d' => plain_entry(Function::CarriageReturn),
        '\x08' => plain_entry(Function::Backspace),
        '\u{8d}' => plain_entry(Function::ReverseIndex),
        '\u{85}' => plain_entry(Function::NextLine),
        '\x09' => wrap_keeping_entry(Function::Tab),
        '\u{88}' => plain_entry(Function::TabSet),
        '\x07' => plain_entry(Function::Bell),
        _ => None,
    }
}

/// The entry a key selects.
#[verifier::opaque]
pub open spec fn entry_for(ty: FunctionType, key: Seq<char>) -> Option<Entry> {
    match ty {
        FunctionType::Csi => if key.len() == 1 {
            csi_entry(key[0])
        } else if key.len() == 2 {
            csi_pair_entry(key[0], key[1])
        } else {
            None
        },
        FunctionType::Escape => if key.len() == 1 && key[0] == '7' {
            plain_entry(Function::SaveCursor)
        } else if key.len() == 1 && key[0] == '8' {
            plain_entry(Function::RestoreCursor)
        } else if key.len() == 1 && key[0] == 'c' {
            plain_entry(Function::FullReset)
        } else if key.len() == 2 && key[0] == '#' && key[1] == '8' {
            plain_entry(Function::AlignmentTest)
        } else {
            None
        },
        FunctionType::Control => if key.len() == 1 {
            control_entry(key[0])
        } else {
            None
        },
    }
}

fn lookup_csi(c: char) -> (e: Option<Entry>)
    ensures
        e == csi_entry(c),
{
    match c {
        'K' => entry(Function::EraseLine),
        'J' => entry(Function::EraseDisplay),
        'A' | 'B' | 'C' | 'D' | 'H' | 'f' => entry(Function::CursorMove),
        'c' => entry(Function::DeviceAttributes),
        'I' | 'Z' => entry_keeping_wrap(Function::CursorTab),
        'g' => entry_keeping_wrap(Function::TabClear),
        'h' => entry(Function::SetModes),
        'l' => entry(Function::ClearModes),
        'r' => entry(Function::SetMargins),
        // Changing renditions does not clear the wrap flag.
        'm' => entry_keeping_wrap(Function::SelectRendition),
        'n' => entry(Function::DeviceStatus),
        'L' => entry(Function::InsertLines),
        'M' => entry(Function::DeleteLines),
        '@' => entry(Function::InsertCells),
        'P' => entry(Function::DeleteCells),
        'd' => entry(Function::LinePosition),
        'G' | '`' => entry(Function::CharPosition),
        'X' => entry(Function::EraseChars),
        'S' => entry(Function::ScrollDown),
        'T' => entry(Function::ScrollUp),
        _ => None,
    }
}

fn lookup_control(c: char) -> (e: Option<Entry>)
    ensures
        e == control_entry(c),
{
    match c {
        '\x0a' | '\u{84}' | '\x0b' | '\x0c' => entry(Function::LineFeed),
        '\x0d' => entry(Function::CarriageReturn),
        '\x08' => entry(Function::Backspace),
        '\u{8d}' => entry(Function::ReverseIndex),
        '\u{85}' => entry(Function::NextLine),
        '\x09' => entry_keeping_wrap(Function::Tab),
        '\u{88}' => entry(Function::TabSet),
        '\x07' => entry(Function::Bell),
        _ => None,
    }
}

/// The entry a key selects.
fn lookup(ty: FunctionType, key: &[char]) -> (e: Option<Entry>)
    ensures
        e == entry_for(ty, key@),
{
    reveal(entry_for);
    match ty {
        FunctionType::Csi => {
            if key.len() == 1 {
                return lookup_csi(key[0]);
            }
            if key.len() != 2 {
                return None;
            }
            let a = key[0];
            let b = key[1];
            if a == '>' && b == 'c' {
                entry(Function::SecondaryDeviceAttributes)
            } else if a == '?' && b == 'h' {
                entry_keeping_wrap(Function::SetPrivateModes)
            } else if a == '?' && b == 'l' {
                entry_keeping_wrap(Function::ClearPrivateModes)
            } else if a == '!' && b == 'p' {
                entry(Function::SoftReset)
            } else {
                None
            }
        },
        FunctionType::Escape => {
            if key.len() == 1 && key[0] == '7' {
                entry(Function::SaveCursor)
            } else if key.len() == 1 && key[0] == '8' {
                entry(Function::RestoreCursor)
            } else if key.len() == 1 && key[0] == 'c' {
                entry(Function::FullReset)
            } else if key.len() == 2 && key[0] == '#' && key[1] == '8' {
                entry(Function::AlignmentTest)
            } else {
                None
            }
        },
        FunctionType::Control => {
            if key.len() == 1 {
                lookup_control(key[0])
            } else {
                None
            }
        },
    }
}

/// How far the parameter string has been read.
pub struct ParamScan {
    /// The parameters that a semicolon has ended.
    pub done: Seq<int>,
    /// The digits of the current one as a number, or -1 before the first digit.
    pub value: int,
    /// Whether the current one consists of digits so far.
    pub open: bool,
}

/// Is this a decimal digit?
pub open spec fn is_digit(c: char) -> bool {
    '0' <= c <= '9'
}

/// The value of a parameter. One without digits, or beyond what we will act on, is -1.
pub open spec fn param_value(value: int) -> int {
    if 0 <= value <= PARAM_MAX {
        value
    } else {
        -1
    }
}

impl ParamScan {
    pub open spec fn initial() -> ParamScan {
        ParamScan { done: Seq::empty(), value: -1, open: true }
    }

    /// After one more character.
    pub open spec fn then_char(self, c: char) -> ParamScan {
        if c == ';' {
            ParamScan { done: self.done.push(param_value(self.value)), value: -1, open: true }
        } else if self.open && is_digit(c) {
            ParamScan {
                value: (if self.value < 0 {
                    0
                } else {
                    self.value
                }) * 10 + (c as int - '0' as int),
                ..self
            }
        } else {
            ParamScan { open: false, ..self }
        }
    }
}

/// Reading the parameter string.
pub open spec fn scanned(s: Seq<char>) -> ParamScan
    decreases s.len(),
{
    if s.len() == 0 {
        ParamScan::initial()
    } else {
        scanned(s.drop_last()).then_char(s.last())
    }
}

/// The parameters, separated by semicolons. An empty string is one empty parameter.
pub open spec fn params_in(s: Seq<char>) -> Seq<int> {
    scanned(s).done.push(param_value(scanned(s).value))
}

/// Parameter `n`, or `default` when it is absent, empty or zero.
pub open spec fn param_or(params: Seq<int>, n: int, default: int) -> int {
    if 0 <= n < params.len() && params[n] >= 1 {
        params[n]
    } else {
        default
    }
}

/// The renditions after the SGR parameters from `i` on. In 38;5;Ps and 48;5;Ps a Ps of 0
/// selects colour 0, where elsewhere a 0 means reset to default; 38;2 and 48;2 are
/// followed by three components.
pub open spec fn renditions_selected(r: Renditions, params: Seq<int>, i: int) -> Renditions
    decreases params.len() - i,
{
    if i < 0 || i >= params.len() {
        r
    } else {
        let p = param_or(params, i, 0);
        if (p == 38 || p == 48) && params.len() - i >= 3 && param_or(params, i + 1, -1) == 5 {
            let color = param_or(params, i + 2, 0) as i32;
            let next = if p == 38 {
                r.with_foreground(color)
            } else {
                r.with_background(color)
            };
            renditions_selected(next, params, i + 3)
        } else if (p == 38 || p == 48) && params.len() - i >= 5 && param_or(params, i + 1, -1)
            == 2 {
            let color = (crate::cell::TRUE_COLOR_MASK | ((param_or(params, i + 2, 0) as u32) << 16)
                | ((param_or(params, i + 3, 0) as u32) << 8) | (param_or(
                params,
                i + 4,
                0,
            ) as u32)) as i32;
            let next = if p == 38 {
                r.with_foreground(color)
            } else {
                r.with_background(color)
            };
            renditions_selected(next, params, i + 5)
        } else {
            renditions_selected(r.with_rendition(p as u32), params, i + 1)
        }
    }
}

/// The screen after the private modes from parameter `i` on were switched.
pub open spec fn private_modes_set(s: Screen, params: Seq<int>, i: int, value: bool) -> Screen
    decreases params.len() - i,
{
    if i < 0 || i >= params.len() {
        s
    } else {
        private_modes_set(s.private_mode_set(param_or(params, i, 0), value), params, i + 1, value)
    }
}

/// Does any parameter name insert mode?
pub open spec fn names_insert_mode(params: Seq<int>) -> bool {
    exists|i: int| 0 <= i < params.len() && #[trigger] params[i] == 4
}

/// The screen after a function.
#[verifier::opaque]
pub open spec fn performed(f: Function, s: Screen, params: Seq<int>, letter: char) -> Screen {
    let a = param_or(params, 0, 0);
    let n = param_or(params, 0, 1);
    match f {
        Function::EraseLine => s.line_erased(a),
        Function::EraseDisplay => s.display_erased(a),
        Function::InsertLines => s.lines_inserted_here(n),
        Function::DeleteLines => s.lines_deleted_here(n),
        Function::InsertCells => s.cells_inserted_here(n),
        Function::DeleteCells => s.cells_deleted_here(n),
        Function::EraseChars => s.chars_erased(n),
        Function::SoftReset => s.soft_reset(),
        Function::ScrollDown => s.scrolled(n),
        Function::ScrollUp => s.scrolled(-n),
        Function::AlignmentTest => s.filled('E'),
        Function::FullReset => s.reset(),
        _ => cursor_performed(f, s, params, letter),
    }
}

/// The screen after a function that moves the cursor or its tab stops.
#[verifier::opaque]
pub open spec fn cursor_performed(f: Function, s: Screen, params: Seq<int>, letter: char) -> Screen {
    let a = param_or(params, 0, 0);
    let n = param_or(params, 0, 1);
    match f {
        Function::CursorMove => s.cursor_commanded(letter, n, param_or(params, 1, 1)),
        Function::CursorTab => s.tabbed(
            if letter == 'Z' {
                -n
            } else {
                n
            },
        ),
        Function::LinePosition => s.with_ds(s.ds.row_moved(n - 1, false)),
        Function::CharPosition => s.with_ds(s.ds.col_moved(n - 1, false, false)),
        Function::SaveCursor => s.with_ds(s.ds.cursor_saved()),
        Function::RestoreCursor => s.with_ds(s.ds.cursor_restored()),
        Function::LineFeed => s.autoscrolled(1),
        Function::CarriageReturn => s.with_ds(s.ds.col_moved(0, false, false)),
        Function::Backspace => s.with_ds(s.ds.col_moved(-1, true, false)),
        Function::ReverseIndex => s.autoscrolled(-1),
        Function::NextLine => s.next_line(),
        Function::Tab => s.tabbed(1),
        Function::TabSet => s.tab_set(),
        Function::TabClear => s.tabs_cleared(a),
        _ => mode_performed(f, s, params),
    }
}

/// The screen after a function that changes modes, margins or renditions, or rings the
/// bell. Reports leave it alone.
#[verifier::opaque]
pub open spec fn mode_performed(f: Function, s: Screen, params: Seq<int>) -> Screen {
    let n = param_or(params, 0, 1);
    match f {
        Function::SetPrivateModes => private_modes_set(s, params, 0, true),
        Function::ClearPrivateModes => private_modes_set(s, params, 0, false),
        Function::SetModes => if names_insert_mode(params) {
            s.with_ds(DrawView { insert_mode: true, ..s.ds })
        } else {
            s
        },
        Function::ClearModes => if names_insert_mode(params) {
            s.with_ds(DrawView { insert_mode: false, ..s.ds })
        } else {
            s
        },
        Function::SetMargins => s.margins_set(n, param_or(params, 1, s.ds.geo.height)),
        Function::SelectRendition => s.with_ds(
            DrawView {
                renditions: renditions_selected(s.ds.renditions, params, 0),
                ..s.ds
            },
        ),
        Function::Bell => Screen { bell_count: s.bell_count.wrapping_add(1), ..s },
        _ => s,
    }
}

/// What a function replies to the application.
pub open spec fn reply_of(f: Function, s: Screen, params: Seq<int>) -> Seq<char> {
    match f {
        // Identify as a plain vt220.
        Function::DeviceAttributes => "\x1b[?62c"@,
        Function::SecondaryDeviceAttributes => "\x1b[>1;10;0c"@,
        Function::DeviceStatus => if param_or(params, 0, 0) == 5 {
            "\x1b[0n"@
        } else if param_or(params, 0, 0) == 6 {
            "\x1b["@ + decimal((s.ds.geo.cursor_row + 1) as nat) + ";"@ + decimal(
                (s.ds.geo.cursor_col + 1) as nat,
            ) + "R"@
        } else {
            Seq::empty()
        },
        _ => Seq::empty(),
    }
}

/// What the dispatcher has gathered.
#[verifier::ext_equal]
pub struct DispatcherView {
    pub params: Seq<char>,
    pub dispatch_chars: Seq<char>,
    pub osc: Seq<char>,
    pub reply: Seq<char>,
}

impl DispatcherView {
    pub open spec fn initial() -> DispatcherView {
        DispatcherView {
            params: Seq::empty(),
            dispatch_chars: Seq::empty(),
            osc: Seq::empty(),
            reply: Seq::empty(),
        }
    }

    /// With one more parameter character, while they fit.
    pub open spec fn param_added(self, ch: char) -> DispatcherView {
        if encode_utf8(self.params).len() < MAX_PARAM_BYTES {
            DispatcherView { params: self.params.push(ch), ..self }
        } else {
            self
        }
    }

    /// With one more intermediate or final character, while they fit.
    pub open spec fn collected(self, ch: char) -> DispatcherView {
        if encode_utf8(self.dispatch_chars).len() < MAX_DISPATCH_CHARS && ch as u32 <= 255 {
            DispatcherView { dispatch_chars: self.dispatch_chars.push(ch), ..self }
        } else {
            self
        }
    }

    /// With nothing gathered for a control sequence.
    pub open spec fn cleared(self) -> DispatcherView {
        DispatcherView { params: Seq::empty(), dispatch_chars: Seq::empty(), ..self }
    }

    /// With one more character of an operating system command, while they fit.
    pub open spec fn osc_added(self, ch: char) -> DispatcherView {
        if self.osc.len() < MAXIMUM_CLIPBOARD_SIZE {
            DispatcherView { osc: self.osc.push(ch), ..self }
        } else {
            self
        }
    }

    /// The dispatcher when a function is looked up. The final character of a sequence is
    /// part of the key.
    pub open spec fn keyed(self, ty: FunctionType, ch: char) -> DispatcherView {
        if ty == FunctionType::Control {
            self
        } else {
            self.collected(ch)
        }
    }

    /// The key a function is looked up by.
    pub open spec fn key(self, ty: FunctionType, ch: char) -> Seq<char> {
        if ty == FunctionType::Control {
            seq![ch]
        } else {
            self.dispatch_chars
        }
    }

    /// The first of the gathered characters.
    pub open spec fn letter(self) -> char {
        if self.dispatch_chars.len() > 0 {
            self.dispatch_chars[0]
        } else {
            '\0'
        }
    }

    /// The dispatcher after a dispatch.
    #[verifier::opaque]
    pub open spec fn dispatched(self, ty: FunctionType, ch: char, s: Screen) -> DispatcherView {
        let d = self.keyed(ty, ch);
        match entry_for(ty, d.key(ty, ch)) {
            Some(e) => DispatcherView {
                reply: d.reply + reply_of(e.function, s, params_in(d.params)),
                ..d
            },
            None => d,
        }
    }

    /// The screen after a dispatch. An unknown function still clears the wrap state.
    #[verifier::opaque]
    pub open spec fn screen_after(self, ty: FunctionType, ch: char, s: Screen) -> Screen {
        let d = self.keyed(ty, ch);
        let unwrapped = s.with_ds(DrawView { next_print_will_wrap: false, ..s.ds });
        match entry_for(ty, d.key(ty, ch)) {
            Some(e) => performed(
                e.function,
                if e.clears_wrap_state {
                    unwrapped
                } else {
                    s
                },
                params_in(d.params),
                d.letter(),
            ),
            None => unwrapped,
        }
    }
}

/// Is every character printable ASCII?
pub open spec fn printable(s: Seq<char>) -> bool {
    forall|i: int| 0 <= i < s.len() ==> 32 <= #[trigger] s[i] as u32 <= 126
}

/// The index of the first semicolon from `from` on, or the length.
pub open spec fn semicolon_from(s: Seq<char>, from: int) -> int
    decreases s.len() - from,
{
    if from < 0 || from >= s.len() {
        s.len() as int
    } else if s[from] == ';' {
        from
    } else {
        semicolon_from(s, from + 1)
    }
}

/// Is this a palette query (`4;Ps;?`) or a dynamic colour query (`10..19;?`)?
pub open spec fn is_color_query(osc: Seq<char>) -> bool {
    let k = semicolon_from(osc, 0);
    &&& osc.len() > 0
    &&& osc.last() == '?'
    &&& printable(osc)
    &&& k < osc.len()
    &&& (k == 1 && osc[0] == '4') || (k == 2 && osc[0] == '1' && is_digit(osc[1]))
}

/// Is this a clipboard command, `52;Pc;Pd`?
pub open spec fn is_clipboard(osc: Seq<char>) -> bool {
    &&& osc.len() >= 4
    &&& osc[0] == '5'
    &&& osc[1] == '2'
    &&& osc[2] == ';'
    &&& semicolon_from(osc, 3) < osc.len()
}

/// The number of a command, or -1. A missing number counts as zero.
pub open spec fn osc_number(osc: Seq<char>) -> int {
    if osc.len() > 0 && osc[0] == ';' {
        0
    } else if osc.len() >= 2 && osc[1] == ';' {
        osc[0] as int - '0' as int
    } else {
        -1
    }
}

/// Where the text of a command starts.
pub open spec fn osc_text_start(osc: Seq<char>) -> int {
    if osc.len() > 0 && osc[0] == ';' {
        1
    } else {
        2
    }
}

/// The link that `8;params;url` names, unless it is malformed.
pub open spec fn osc_link(osc: Seq<char>) -> Option<Option<Link>> {
    let k = semicolon_from(osc, 2);
    if !printable(osc) || osc.len() <= 2 || osc[1] != ';' || k >= osc.len() {
        None
    } else if k + 1 == osc.len() {
        Some(None)
    } else {
        Some(
            Some(
                Link {
                    params: osc.subrange(2, k),
                    url: osc.subrange(k + 1, osc.len() as int),
                },
            ),
        )
    }
}

/// A title, cut at 256 characters of the command.
pub open spec fn osc_title(osc: Seq<char>) -> Seq<char> {
    let start = osc_text_start(osc);
    let end: int = if osc.len() < 256 {
        osc.len() as int
    } else {
        256
    };
    if start < end {
        osc.subrange(start, end)
    } else {
        Seq::empty()
    }
}

/// The screen after an operating system command: a clipboard, a colour query, a link, or
/// a title.
#[verifier::opaque]
pub open spec fn osc_performed(osc: Seq<char>, s: Screen) -> Screen {
    let n = osc_number(osc);
    if is_clipboard(osc) {
        s.clipboard_set(osc.subrange(3, osc.len() as int))
    } else if is_color_query(osc) {
        s.color_query_added("\x1b]"@ + osc + "\x1b\\"@)
    } else if n == 8 {
        match osc_link(osc) {
            Some(link) => s.with_ds(DrawView { hyperlink: link, ..s.ds }),
            None => s,
        }
    } else if 0 <= n <= 2 {
        Screen {
            title_initialized: true,
            icon_name: if n != 2 {
                osc_title(osc)
            } else {
                s.icon_name
            },
            window_title: if n != 1 {
                osc_title(osc)
            } else {
                s.window_title
            },
            ..s
        }
    } else {
        s
    }
}

/// Accumulates the parameters and intermediate characters of one escape sequence, then
/// runs the function they select.
#[derive(Debug)]
pub struct Dispatcher {
    params: String,
    dispatch_chars: String,
    osc_string: Vec<char>,
    /// The reply string, sent back to the application.
    pub terminal_to_host: String,
}

impl View for Dispatcher {
    type V = DispatcherView;

    closed spec fn view(&self) -> DispatcherView {
        DispatcherView {
            params: self.params@,
            dispatch_chars: self.dispatch_chars@,
            osc: self.osc_string@,
            reply: self.terminal_to_host@,
        }
    }
}

impl Clone for Dispatcher {
    fn clone(&self) -> (res: Self)
        ensures
            res@ == self@,
    {
        let osc_string = self.osc_string.clone();
        assert(osc_string@ =~= self.osc_string@);
        Dispatcher {
            params: self.params.clone(),
            dispatch_chars: self.dispatch_chars.clone(),
            osc_string,
            terminal_to_host: self.terminal_to_host.clone(),
        }
    }
}

impl Default for Dispatcher {
    fn default() -> (d: Self)
        ensures
            d@ == DispatcherView::initial(),
    {
        Dispatcher {
            params: String::new(),
            dispatch_chars: String::new(),
            osc_string: Vec::new(),
            terminal_to_host: String::new(),
        }
    }
}

/// Parameter `n` of a list, or the default.
fn nth_param(params: &Vec<i32>, n: usize, default: i32) -> (v: i32)
    ensures
        v == param_or(params@.map_values(|x: i32| x as int), n as int, default as int),
{
    if n < params.len() && params[n] >= 1 {
        params[n]
    } else {
        default
    }
}

/// The parameters of a list as integers.
pub open spec fn as_ints(params: Seq<i32>) -> Seq<int> {
    params.map_values(|x: i32| x as int)
}

impl Dispatcher {
    pub fn new() -> (d: Self)
        ensures
            d@ == DispatcherView::initial(),
    {
        Dispatcher::default()
    }

    pub fn new_param_char(&mut self, ch: char)
        ensures
            final(self)@ == old(self)@.param_added(ch),
    {
        if self.params.as_str().as_bytes().len() < MAX_PARAM_BYTES {
            self.params.push(ch);
        }
    }

    pub fn collect(&mut self, ch: char)
        ensures
            final(self)@ == old(self)@.collected(ch),
    {
        if self.dispatch_chars.as_str().as_bytes().len() < MAX_DISPATCH_CHARS && ch as u32 <= 255 {
            self.dispatch_chars.push(ch);
        }
    }

    pub fn clear(&mut self)
        ensures
            final(self)@ == old(self)@.cleared(),
    {
        self.params = String::new();
        self.dispatch_chars = String::new();
    }

    pub fn dispatch_chars(&self) -> (s: &str)
        ensures
            s@ == self@.dispatch_chars,
    {
        self.dispatch_chars.as_str()
    }

    pub fn osc_string(&self) -> (s: &[char])
        ensures
            s@ == self@.osc,
    {
        self.osc_string.as_slice()
    }

    /// The bytes the parameter string takes.
    pub fn param_bytes(&self) -> (n: usize)
        ensures
            n == encode_utf8(self@.params).len(),
    {
        self.params.as_str().as_bytes().len()
    }

    /// Split the parameter string on semicolons.
    ///
    /// A segment with no digits, or one that is too large, becomes -1, which `getparam`
    /// then turns into the caller's default.
    fn parse_params(&self) -> (params: Vec<i32>)
        ensures
            as_ints(params@) == params_in(self@.params),
            params@.len() >= 1,
            forall|i: int| 0 <= i < params@.len() ==> -1 <= #[trigger] params@[i] <= PARAM_MAX,
    {
        let chars = chars_of(self.params.as_str());
        let mut done: Vec<i32> = Vec::new();
        // Values past the limit are held at one past it.
        let mut value: i32 = -1;
        let mut open = true;
        let mut i: usize = 0;
        assert(chars@.subrange(0, 0) =~= Seq::<char>::empty());
        assert(as_ints(done@) =~= scanned(chars@.subrange(0, 0)).done);
        while i < chars.len()
            invariant
                i <= chars.len(),
                chars@ == self@.params,
                ({
                    let p = scanned(chars@.subrange(0, i as int));
                    &&& as_ints(done@) == p.done
                    &&& open == p.open
                    &&& value == if p.value <= PARAM_MAX {
                        p.value
                    } else {
                        PARAM_MAX + 1
                    }
                    &&& p.value >= -1
                }),
                -1 <= value <= PARAM_MAX + 1,
                forall|k: int| 0 <= k < done@.len() ==> -1 <= #[trigger] done@[k] <= PARAM_MAX,
            decreases chars.len() - i,
        {
            let c = chars[i];
            let ghost before = scanned(chars@.subrange(0, i as int));
            let ghost done_before = done@;
            proof {
                let next = chars@.subrange(0, i + 1);
                assert(next.drop_last() =~= chars@.subrange(0, i as int));
                assert(next.last() == c);
            }
            if c == ';' {
                done.push(
                    if value <= PARAM_MAX {
                        value
                    } else {
                        -1
                    },
                );
                value = -1;
                open = true;
                assert(as_ints(done@) =~= before.then_char(c).done);
            } else if open && '0' <= c && c <= '9' {
                let digit: i32 = (c as u32 - 48) as i32;
                let sum: i32 = (if value < 0 {
                    0
                } else {
                    value
                }) * 10 + digit;
                value = if sum <= PARAM_MAX {
                    sum
                } else {
                    PARAM_MAX + 1
                };
            } else {
                open = false;
            }
            i = i + 1;
        }
        assert(chars@.subrange(0, i as int) =~= chars@);
        done.push(
            if value <= PARAM_MAX {
                value
            } else {
                -1
            },
        );
        assert(as_ints(done@) =~= params_in(self@.params));
        done
    }

    /// Parameter `n`, or `default` when it is absent, empty or zero.
    pub fn getparam(&self, n: usize, default: i32) -> (v: i32)
        ensures
            v == param_or(params_in(self@.params), n as int, default as int),
    {
        let params = self.parse_params();
        nth_param(&params, n, default)
    }

    pub fn param_count(&self) -> (n: usize)
        ensures
            n == params_in(self@.params).len(),
    {
        let params = self.parse_params();
        assert(as_ints(params@).len() == params@.len());
        params.len()
    }

    /// A rendering of what was gathered, for reports.
    pub fn str(&self) -> (s: String)
        ensures
            s@ == "[dispatch=\""@ + self@.dispatch_chars + "\" params=\""@ + self@.params + "\"]"@,
    {
        let mut s = String::new();
        s.append("[dispatch=\"");
        s.append(self.dispatch_chars.as_str());
        s.append("\" params=\"");
        s.append(self.params.as_str());
        s.append("\"]");
        assert(s@ =~= "[dispatch=\""@ + self@.dispatch_chars + "\" params=\""@ + self@.params
            + "\"]"@);
        s
    }

    pub fn osc_put(&mut self, ch: char)
        ensures
            final(self)@ == old(self)@.osc_added(ch),
    {
        if self.osc_string.len() < MAXIMUM_CLIPBOARD_SIZE {
            self.osc_string.push(ch);
        }
    }

    pub fn osc_start(&mut self)
        ensures
            final(self)@ == (DispatcherView { osc: Seq::empty(), ..old(self)@ }),
    {
        self.osc_string = Vec::new();
    }

    /// The reply the application is owed, which is taken out.
    pub fn take_reply(&mut self) -> (s: String)
        ensures
            s@ == old(self)@.reply,
            final(self)@ == (DispatcherView { reply: Seq::empty(), ..old(self)@ }),
    {
        let s = self.terminal_to_host.clone();
        self.terminal_to_host = String::new();
        s
    }

    fn append_reply(&mut self, f: Function, fb: &Framebuffer, params: &Vec<i32>)
        requires
            fb@.valid(),
        ensures
            final(self)@ == (DispatcherView {
                reply: old(self)@.reply + reply_of(f, fb@, as_ints(params@)),
                ..old(self)@
            }),
    {
        match f {
            Function::DeviceAttributes => self.terminal_to_host.append("\x1b[?62c"),
            Function::SecondaryDeviceAttributes => self.terminal_to_host.append("\x1b[>1;10;0c"),
            Function::DeviceStatus => {
                let kind = nth_param(params, 0, 0);
                if kind == 5 {
                    self.terminal_to_host.append("\x1b[0n");
                } else if kind == 6 {
                    self.terminal_to_host.append("\x1b[");
                    push_decimal(&mut self.terminal_to_host, (fb.ds.cursor_row() + 1) as u64);
                    self.terminal_to_host.append(";");
                    push_decimal(&mut self.terminal_to_host, (fb.ds.cursor_col() + 1) as u64);
                    self.terminal_to_host.append("R");
                }
            },
            _ => {},
        }
        assert(self.terminal_to_host@ =~= old(self)@.reply + reply_of(
            f,
            fb@,
            as_ints(params@),
        ));
    }
}

/// Are these parameters as `parse_params` gives them?
spec fn in_range(params: Seq<i32>) -> bool {
    &&& params.len() >= 1
    &&& forall|i: int| 0 <= i < params.len() ==> -1 <= #[trigger] params[i] <= PARAM_MAX
}

fn select_renditions(r: Renditions, params: &Vec<i32>) -> (res: Renditions)
    requires
        in_range(params@),
    ensures
        res == renditions_selected(r, as_ints(params@), 0),
{
    let ghost ints = as_ints(params@);
    let mut r: Renditions = r;
    let ghost start = r;
    let n: usize = params.len();
    let mut i: usize = 0;
    while i < n
        invariant
            n == params@.len() == ints.len(),
            in_range(params@),
            ints == as_ints(params@),
            i <= n,
            renditions_selected(start, ints, 0) == renditions_selected(r, ints, i as int),
        decreases n - i,
    {
        let rendition = nth_param(params, i, 0);
        assert(rendition == param_or(ints, i as int, 0));
        if (rendition == 38 || rendition == 48) && n - i >= 3 && nth_param(params, i + 1, -1) == 5 {
            let color = nth_param(params, i + 2, 0);
            if rendition == 38 {
                r.set_foreground_color(color);
            } else {
                r.set_background_color(color);
            }
            i = i + 3;
        } else if (rendition == 38 || rendition == 48) && n - i >= 5 && nth_param(params, i + 1, -1)
            == 2 {
            let red = nth_param(params, i + 2, 0) as u32;
            let green = nth_param(params, i + 3, 0) as u32;
            let blue = nth_param(params, i + 4, 0) as u32;
            let color = Renditions::make_true_color(red, green, blue) as i32;
            if rendition == 38 {
                r.set_foreground_color(color);
            } else {
                r.set_background_color(color);
            }
            i = i + 5;
        } else {
            r.set_rendition(rendition as u32);
            i = i + 1;
        }
    }
    r
}

fn set_private_modes(fb: &mut Framebuffer, params: &Vec<i32>, value: bool)
    requires
        old(fb)@.valid(),
    ensures
        final(fb)@ == private_modes_set(old(fb)@, as_ints(params@), 0, value),
        final(fb)@.valid(),
{
    let ghost ints = as_ints(params@);
    let n: usize = params.len();
    let mut i: usize = 0;
    while i < n
        invariant
            n == params@.len() == ints.len(),
            ints == as_ints(params@),
            i <= n,
            fb@.valid(),
            private_modes_set(old(fb)@, ints, 0, value) == private_modes_set(
                fb@,
                ints,
                i as int,
                value,
            ),
        decreases n - i,
    {
        let param = nth_param(params, i, 0);
        set_private_mode(fb, param, value);
        i = i + 1;
    }
}

fn any_insert_mode(params: &Vec<i32>) -> (b: bool)
    ensures
        b == names_insert_mode(as_ints(params@)),
{
    let ghost ints = as_ints(params@);
    let n: usize = params.len();
    let mut i: usize = 0;
    while i < n
        invariant
            n == params@.len() == ints.len(),
            ints == as_ints(params@),
            i <= n,
            forall|k: int| 0 <= k < i ==> #[trigger] ints[k] != 4,
        decreases n - i,
    {
        if params[i] == 4 {
            assert(ints[i as int] == 4);
            return true;
        }
        i = i + 1;
    }
    false
}

/// Runs a function on the screen.
fn perform(fb: &mut Framebuffer, f: Function, params: &Vec<i32>, letter: char)
    requires
        old(fb)@.valid(),
        in_range(params@),
    ensures
        final(fb)@ == performed(f, old(fb)@, as_ints(params@), letter),
        final(fb)@.valid(),
{
    reveal(performed);
    let a = nth_param(params, 0, 0);
    let n = nth_param(params, 0, 1);
    match f {
        Function::EraseLine => {
            erase_line(fb, a);
            return ;
        },
        Function::EraseDisplay => {
            erase_display(fb, a);
            return ;
        },
        Function::InsertLines => {
            insert_lines(fb, n);
            return ;
        },
        Function::DeleteLines => {
            delete_lines(fb, n);
            return ;
        },
        Function::InsertCells => {
            insert_cells(fb, n);
            return ;
        },
        Function::DeleteCells => {
            delete_cells(fb, n);
            return ;
        },
        Function::EraseChars => {
            erase_chars(fb, n);
            return ;
        },
        Function::SoftReset => {
            fb.soft_reset();
            return ;
        },
        Function::ScrollDown => {
            fb.scroll(n);
            return ;
        },
        Function::ScrollUp => {
            fb.scroll(-n);
            return ;
        },
        Function::AlignmentTest => {
            fill_screen(fb, 'E');
            return ;
        },
        Function::FullReset => {
            fb.reset();
            return ;
        },
        _ => {
            perform_cursor(fb, f, params, letter);
            return ;
        },
    }
}

/// Runs a function that moves the cursor or its tab stops.
fn perform_cursor(fb: &mut Framebuffer, f: Function, params: &Vec<i32>, letter: char)
    requires
        old(fb)@.valid(),
        in_range(params@),
    ensures
        final(fb)@ == cursor_performed(f, old(fb)@, as_ints(params@), letter),
        final(fb)@.valid(),
{
    reveal(cursor_performed);
    let a = nth_param(params, 0, 0);
    let n = nth_param(params, 0, 1);
    match f {
        Function::CursorMove => {
            command_cursor(fb, letter, n, nth_param(params, 1, 1));
            return ;
        },
        Function::CursorTab => {
            if letter == 'Z' {
                tab(fb, -n);
            } else {
                tab(fb, n);
            }
            return ;
        },
        Function::LinePosition => {
            move_to_row(fb, n - 1);
            return ;
        },
        Function::CharPosition => {
            move_to_col(fb, n - 1);
            return ;
        },
        Function::SaveCursor => {
            save_cursor(fb);
            return ;
        },
        Function::RestoreCursor => {
            restore_cursor(fb);
            return ;
        },
        Function::LineFeed => {
            line_feed(fb);
            return ;
        },
        Function::CarriageReturn => {
            move_to_col(fb, 0);
            return ;
        },
        Function::Backspace => {
            backspace(fb);
            return ;
        },
        Function::ReverseIndex => {
            fb.move_rows_autoscroll(-1);
            return ;
        },
        Function::NextLine => {
            new_line(fb);
            return ;
        },
        Function::Tab => {
            tab(fb, 1);
            return ;
        },
        Function::TabSet => {
            set_tab(fb);
            return ;
        },
        Function::TabClear => {
            clear_tabs(fb, a);
            return ;
        },
        _ => {
            perform_mode(fb, f, params);
            return ;
        },
    }
}

/// Runs a function that changes modes, margins or renditions, or rings the bell.
fn perform_mode(fb: &mut Framebuffer, f: Function, params: &Vec<i32>)
    requires
        old(fb)@.valid(),
        in_range(params@),
    ensures
        final(fb)@ == mode_performed(f, old(fb)@, as_ints(params@)),
        final(fb)@.valid(),
{
    reveal(mode_performed);
    let n = nth_param(params, 0, 1);
    match f {
        Function::SetPrivateModes => {
            set_private_modes(fb, params, true);
            return ;
        },
        Function::ClearPrivateModes => {
            set_private_modes(fb, params, false);
            return ;
        },
        Function::SetModes => {
            if any_insert_mode(params) {
                set_insert_mode(fb, true);
            }
            return ;
        },
        Function::ClearModes => {
            if any_insert_mode(params) {
                set_insert_mode(fb, false);
            }
            return ;
        },
        Function::SetMargins => {
            let bottom = nth_param(params, 1, fb.ds.height());
            set_margins(fb, n, bottom);
            return ;
        },
        Function::SelectRendition => {
            let r = select_renditions(*fb.ds.renditions(), params);
            set_renditions(fb, r);
            return ;
        },
        Function::Bell => {
            fb.ring_bell();
            return ;
        },
        _ => {
            return ;
        },
    }
}

fn clear_wrap(fb: &mut Framebuffer)
    requires
        old(fb)@.valid(),
    ensures
        final(fb)@ == old(fb)@.with_ds(
            DrawView { next_print_will_wrap: false, ..old(fb)@.ds },
        ),
        final(fb)@.valid(),
{
    fb.ds.next_print_will_wrap = false;
}

impl Dispatcher {
    /// Run the function selected by the accumulated dispatch characters.
    pub fn dispatch(&mut self, ty: FunctionType, ch: char, fb: &mut Framebuffer)
        requires
            old(fb)@.valid(),
        ensures
            final(self)@ == old(self)@.dispatched(ty, ch, old(fb)@),
            final(fb)@ == old(self)@.screen_after(ty, ch, old(fb)@),
            final(fb)@.valid(),
    {
        reveal(DispatcherView::dispatched);
        reveal(DispatcherView::screen_after);
        // The final character is part of the key.
        if ty != FunctionType::Control {
            self.collect(ch);
        }
        let ghost d = self@;
        assert(d == old(self)@.keyed(ty, ch));
        let gathered = chars_of(self.dispatch_chars.as_str());
        let key: Vec<char> = if ty == FunctionType::Control {
            vec![ch]
        } else {
            chars_of(self.dispatch_chars.as_str())
        };
        assert(key@ =~= d.key(ty, ch));
        match lookup(ty, key.as_slice()) {
            None => {
                // An unknown function still clears the wrap state.
                clear_wrap(fb);
            },
            Some(e) => {
                let params = self.parse_params();
                self.append_reply(e.function, fb, &params);
                if e.clears_wrap_state {
                    clear_wrap(fb);
                }
                let letter: char = if gathered.len() > 0 {
                    gathered[0]
                } else {
                    '\0'
                };
                perform(fb, e.function, &params, letter);
            },
        }
    }
}

/// Is every character printable ASCII?
fn is_printable(s: &[char]) -> (b: bool)
    ensures
        b == printable(s@),
{
    let mut i: usize = 0;
    while i < s.len()
        invariant
            i <= s.len(),
            forall|k: int| 0 <= k < i ==> 32 <= #[trigger] s@[k] as u32 <= 126,
        decreases s.len() - i,
    {
        if (s[i] as u32) < 32 || (s[i] as u32) > 126 {
            return false;
        }
        i = i + 1;
    }
    true
}

fn code_point(c: char) -> (n: u32)
    ensures
        n == c as int,
{
    c as u32
}

fn find_semicolon(s: &[char], from: usize) -> (k: usize)
    ensures
        k == semicolon_from(s@, from as int),
        from <= s@.len() ==> from <= k <= s@.len(),
        k < s@.len() ==> s@[k as int] == ';',
{
    let mut i: usize = from;
    while i < s.len()
        invariant
            from <= i,
            from <= s@.len() ==> i <= s@.len(),
            semicolon_from(s@, from as int) == semicolon_from(s@, i as int),
        decreases s.len() - i,
    {
        if s[i] == ';' {
            return i;
        }
        i = i + 1;
    }
    s.len()
}

/// A palette query or a dynamic colour query.
///
/// There are no colours of our own to report, so the query is forwarded to the client's
/// terminal and the reply reaches the application as ordinary input.
fn parse_color_query(osc: &[char]) -> (q: Option<String>)
    ensures
        match q {
            Some(text) => is_color_query(osc@) && text@ == "\x1b]"@ + osc@ + "\x1b\\"@,
            None => !is_color_query(osc@),
        },
{
    if osc.len() == 0 || osc[osc.len() - 1] != '?' || !is_printable(osc) {
        return None;
    }
    let k = find_semicolon(osc, 0);
    if k >= osc.len() {
        return None;
    }
    let palette = k == 1 && osc[0] == '4';
    let dynamic_color = k == 2 && osc[0] == '1' && '0' <= osc[1] && osc[1] <= '9';
    if !palette && !dynamic_color {
        return None;
    }
    let mut text = String::new();
    text.append("\x1b]");
    text.append(string_of(osc).as_str());
    text.append("\x1b\\");
    assert(text@ =~= "\x1b]"@ + osc@ + "\x1b\\"@);
    Some(text)
}

/// The characters from `from` up to `to`.
fn part(s: &[char], from: usize, to: usize) -> (v: Vec<char>)
    requires
        from <= to <= s@.len(),
    ensures
        v@ == s@.subrange(from as int, to as int),
{
    let v = vstd::slice::slice_to_vec(vstd::slice::slice_subrange(s, from, to));
    assert(v@ =~= s@.subrange(from as int, to as int));
    v
}

/// OSC 8 hyperlink: `ESC ] 8 ; params ; url BEL`.
fn parse_link(osc: &[char]) -> (l: Option<Hyperlink>)
    ensures
        match l {
            Some(link) => osc_link(osc@) == Some(link@),
            None => osc_link(osc@) is None,
        },
{
    if !is_printable(osc) || osc.len() <= 2 || osc[1] != ';' {
        return None;
    }
    let k = find_semicolon(osc, 2);
    if k >= osc.len() {
        return None;
    }
    let params = string_of(part(osc, 2, k).as_slice());
    let url = string_of(part(osc, k + 1, osc.len()).as_slice());
    Some(Hyperlink::new(params, url))
}

fn set_link(fb: &mut Framebuffer, link: Hyperlink)
    requires
        old(fb)@.valid(),
    ensures
        final(fb)@ == old(fb)@.with_ds(DrawView { hyperlink: link@, ..old(fb)@.ds }),
        final(fb)@.valid(),
{
    fb.ds.set_hyperlink(link);
}

/// Sets the icon name or window title, or both.
fn set_titles(fb: &mut Framebuffer, title: Vec<char>, icon: bool, window: bool)
    requires
        old(fb)@.valid(),
    ensures
        final(fb)@ == (Screen {
            title_initialized: true,
            icon_name: if icon {
                title@
            } else {
                old(fb)@.icon_name
            },
            window_title: if window {
                title@
            } else {
                old(fb)@.window_title
            },
            ..old(fb)@
        }),
        final(fb)@.valid(),
{
    fb.set_title_initialized();
    if icon {
        fb.set_icon_name(part(title.as_slice(), 0, title.len()));
        assert(title@.subrange(0, title@.len() as int) =~= title@);
    }
    if window {
        fb.set_window_title(title);
    }
}

impl Dispatcher {
    /// Act on a completed Operating System Command.
    pub fn osc_dispatch(&mut self, fb: &mut Framebuffer)
        requires
            old(fb)@.valid(),
        ensures
            final(self)@ == old(self)@,
            final(fb)@ == osc_performed(old(self)@.osc, old(fb)@),
            final(fb)@.valid(),
    {
        reveal(osc_performed);
        let osc = self.osc_string.as_slice();
        let n: usize = osc.len();
        // OSC 52;Pc;Pd -- clipboard. Pd is base64 data, or "?" to query.
        if n >= 4 && osc[0] == '5' && osc[1] == '2' && osc[2] == ';' && find_semicolon(osc, 3) < n {
            assert(is_clipboard(osc@));
            fb.set_clipboard(part(osc, 3, n));
            return ;
        }
        assert(!is_clipboard(osc@));
        if let Some(query) = parse_color_query(osc) {
            fb.add_color_query(query.as_str());
            return ;
        }
        if n == 0 {
            return ;
        }
        let mut cmd_num: i64 = -1;
        let mut offset: usize = 2;
        if osc[0] == ';' {
            // `ESC ] ; title BEL` -- treat the missing number as zero.
            cmd_num = 0;
            offset = 1;
        } else if n >= 2 && osc[1] == ';' {
            // `ESC ] X ; title BEL`, where X is 0 (icon and title), 1 (icon) or 2 (title).
            cmd_num = code_point(osc[0]) as i64 - 48;
        }
        assert(cmd_num == osc_number(osc@));
        if cmd_num == 8 {
            if let Some(link) = parse_link(osc) {
                set_link(fb, link);
            }
            return ;
        }
        if 0 <= cmd_num && cmd_num <= 2 {
            let end: usize = if n < 256 {
                n
            } else {
                256
            };
            // A title shorter than the offset is an empty title.
            let title: Vec<char> = if offset < end {
                part(osc, offset, end)
            } else {
                Vec::new()
            };
            assert(title@ =~= osc_title(osc@));
            set_titles(fb, title, cmd_num != 2, cmd_num != 1);
        }
    }
}

} // verus!
