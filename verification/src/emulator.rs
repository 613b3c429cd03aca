//! The emulator: parser, dispatcher and framebuffer wired together.

use std::rc::Rc;

use vstd::prelude::*;

use crate::cell::{share, Cell, CellView};
use crate::dispatcher::{osc_performed, Dispatcher, DispatcherView, FunctionType};
use crate::draw_state::MAX_DIMENSION;
use crate::framebuffer::{clamp_size, window_dimension, Framebuffer, Screen};
use crate::functions::lemma_with_row_valid;
use crate::parser::{Action, Kind, ParserView, State, Utf8Parser};
use crate::widths::{width_in, WidthRange, Widths};

verus! {

/// Translates the user's keystrokes on their way to the host.
///
/// The user is always in application mode; when the host is not, cursor keys have to be
/// rewritten from SS3 form to ANSI form.
#[derive(Debug, Clone, Copy, PartialEq, Eq, Structural)]
pub struct UserInput {
    state: UserInputState,
}

#[derive(Debug, Clone, Copy, PartialEq, Eq, Structural)]
pub enum UserInputState {
    Ground,
    Esc,
    /// Single shift 3, which introduces a cursor key.
    Ss3,
}

impl View for UserInput {
    type V = UserInputState;

    closed spec fn view(&self) -> UserInputState {
        self.state
    }
}

impl UserInputState {
    /// The state after a byte.
    pub open spec fn after(self, c: u8) -> UserInputState {
        match self {
            UserInputState::Ground => if c == 0x1b {
                UserInputState::Esc
            } else {
                UserInputState::Ground
            },
            UserInputState::Esc => if c == 0x4f {
                UserInputState::Ss3
            } else {
                UserInputState::Ground
            },
            UserInputState::Ss3 => UserInputState::Ground,
        }
    }

    /// The bytes that go to the host for a byte the user typed. `ESC O` is held back until
    /// it is known what follows; a cursor key then gets the form the host expects.
    pub open spec fn sent(self, c: u8, application_mode_cursor_keys: bool) -> Seq<u8> {
        match self {
            UserInputState::Ground => seq![c],
            UserInputState::Esc => if c == 0x4f {
                Seq::empty()
            } else {
                seq![c]
            },
            UserInputState::Ss3 => if !application_mode_cursor_keys && 0x41 <= c <= 0x44 {
                seq![0x5bu8, c]
            } else {
                seq![0x4fu8, c]
            },
        }
    }
}

impl UserInputState {
    /// The state after a run of bytes.
    pub open spec fn after_all(self, keys: Seq<u8>) -> UserInputState
        decreases keys.len(),
    {
        if keys.len() == 0 {
            self
        } else {
            self.after_all(keys.drop_last()).after(keys.last())
        }
    }

    /// The bytes that go to the host for a run of bytes.
    pub open spec fn all_sent(self, keys: Seq<u8>, application_mode_cursor_keys: bool) -> Seq<u8>
        decreases keys.len(),
    {
        if keys.len() == 0 {
            Seq::empty()
        } else {
            self.all_sent(keys.drop_last(), application_mode_cursor_keys) + self.after_all(
                keys.drop_last(),
            ).sent(keys.last(), application_mode_cursor_keys)
        }
    }

    /// What is held back until it is known what follows.
    pub open spec fn held_back(self) -> Seq<u8> {
        if self == UserInputState::Ss3 {
            seq![0x4fu8]
        } else {
            Seq::empty()
        }
    }
}

/// What the user types reaches the host in order and in full, but for what is held back.
/// Only a cursor key may come in another form, and only while the host does not expect the
/// application form.
pub proof fn keys_arrive_in_full(keys: Seq<u8>, application_mode_cursor_keys: bool)
    ensures
        ({
            let state = UserInputState::Ground.after_all(keys);
            let out = UserInputState::Ground.all_sent(keys, application_mode_cursor_keys)
                + state.held_back();
            &&& out.len() == keys.len()
            &&& forall|i: int|
                0 <= i < keys.len() ==> (#[trigger] out[i] == keys[i] || (
                !application_mode_cursor_keys && 1 <= i < keys.len() - 1 && keys[i - 1] == 0x1b
                    && keys[i] == 0x4f && 0x41 <= keys[i + 1] <= 0x44 && out[i] == 0x5b))
            &&& state == UserInputState::Esc ==> keys.len() > 0 && keys.last() == 0x1b
            &&& state == UserInputState::Ss3 ==> keys.len() > 1 && keys.last() == 0x4f
                && keys[keys.len() - 2] == 0x1b
        }),
    decreases keys.len(),
{
    if keys.len() > 0 {
        let init = keys.drop_last();
        keys_arrive_in_full(init, application_mode_cursor_keys);
        let app = application_mode_cursor_keys;
        let before = UserInputState::Ground.all_sent(init, app)
            + UserInputState::Ground.after_all(init).held_back();
        let out = UserInputState::Ground.all_sent(keys, app)
            + UserInputState::Ground.after_all(keys).held_back();
        assert forall|i: int| 0 <= i < keys.len() implies (#[trigger] out[i] == keys[i] || (!app
            && 1 <= i < keys.len() - 1 && keys[i - 1] == 0x1b && keys[i] == 0x4f && 0x41 <= keys[i
            + 1] <= 0x44 && out[i] == 0x5b)) by {
            if i < init.len() {
                assert(before[i] == init[i] || before[i] == 0x5b);
            }
        }
    }
}

impl Default for UserInput {
    fn default() -> (u: Self)
        ensures
            u@ == UserInputState::Ground,
    {
        UserInput { state: UserInputState::Ground }
    }
}

impl UserInput {
    pub fn new() -> (u: Self)
        ensures
            u@ == UserInputState::Ground,
    {
        UserInput::default()
    }

    pub fn input(&mut self, c: u8, application_mode_cursor_keys: bool) -> (out: Vec<u8>)
        ensures
            final(self)@ == old(self)@.after(c),
            out@ == old(self)@.sent(c, application_mode_cursor_keys),
    {
        // The SS3 state has to look one byte ahead to see whether a cursor key follows.
        //
        // This does not handle the 8-bit SS3 C1 control, which would be two octets in
        // UTF-8. Nothing appears to send it.
        match self.state {
            UserInputState::Ground => {
                if c == 0x1b {
                    self.state = UserInputState::Esc;
                }
                let out = vec![c];
                assert(out@ =~= seq![c]);
                out
            },
            UserInputState::Esc => {
                if c == 0x4f {
                    // ESC O is the 7-bit SS3; hold it back until we see what follows.
                    self.state = UserInputState::Ss3;
                    return Vec::new();
                }
                self.state = UserInputState::Ground;
                let out = vec![c];
                assert(out@ =~= seq![c]);
                out
            },
            UserInputState::Ss3 => {
                self.state = UserInputState::Ground;
                let first: u8 = if !application_mode_cursor_keys && 0x41 <= c && c <= 0x44 {
                    0x5b
                } else {
                    0x4f
                };
                let out = vec![first, c];
                assert(out@ =~= seq![first, c]);
                out
            },
        }
    }
}

/// How many columns a character takes on the screen, or -1 if it is not printable.
pub open spec fn print_width(widths: Seq<WidthRange>, ch: char) -> int {
    if ch == '\0' {
        -1
    } else if 0xa0 <= ch as u32 <= 0xff || 0x20 <= ch as u32 <= 0x7e {
        1
    } else {
        match width_in(widths, ch, 0) {
            Some(w) => w as int,
            None => -1,
        }
    }
}

impl Screen {
    /// With the wrap flag of the cursor's row set or cleared.
    pub open spec fn row_wrap_set(self, w: bool) -> Screen {
        self.with_row(-1, self.rows[self.ds.geo.cursor_row].with_wrap(w))
    }

    /// Ready for a character that is `columns` wide: wrapped to the next line if the last
    /// one filled its row, or if there is no room for a wide one.
    #[verifier::opaque]
    pub open spec fn wrapped_for(self, columns: int) -> Screen {
        if self.ds.auto_wrap_mode && self.ds.next_print_will_wrap {
            self.row_wrap_set(true).next_line()
        } else if self.ds.auto_wrap_mode && columns == 2 && self.ds.geo.cursor_col
            == self.ds.geo.width - 1 {
            self.with_cell(-1, -1, CellView::blank(self.background())).row_wrap_set(
                false,
            ).next_line()
        } else {
            self
        }
    }

    /// With room made for the character if it is to be inserted.
    #[verifier::opaque]
    pub open spec fn room_made(self, columns: int) -> Screen {
        if !self.ds.insert_mode {
            self
        } else if columns == 2 {
            self.cell_inserted_here().cell_inserted_here()
        } else {
            self.cell_inserted_here()
        }
    }

    /// With an empty cell put in at the cursor.
    pub open spec fn cell_inserted_here(self) -> Screen {
        self.with_row(
            -1,
            self.rows[self.ds.geo.cursor_row].cell_inserted(
                self.ds.geo.cursor_col,
                self.background(),
            ),
        )
    }

    /// The cell that a printed character makes.
    pub open spec fn printed_cell(self, ch: char, columns: int) -> CellView {
        CellView {
            contents: seq![ch],
            renditions: self.ds.renditions,
            hyperlink: self.ds.hyperlink,
            wide: columns == 2,
            fallback: false,
            wrap: false,
        }
    }

    /// With the character put at the cursor, which moves past it. A wide character covers
    /// the following cell, which is emptied.
    #[verifier::opaque]
    pub open spec fn char_put(self, ch: char, columns: int) -> Screen {
        let geo = self.ds.geo;
        let s = self.with_cell(-1, -1, self.printed_cell(ch, columns));
        let t = if columns == 2 && geo.cursor_col + 1 < geo.width {
            s.with_cell(-1, geo.cursor_col + 1, CellView::blank(self.background()))
        } else {
            s
        };
        t.with_ds(t.ds.col_moved(columns, true, true))
    }

    /// With a combining character joined to the cell it belongs to. If that cell is empty
    /// the character starts it, and the cursor moves on.
    #[verifier::opaque]
    pub open spec fn char_combined(self, ch: char) -> Screen {
        let col = self.ds.geo.combining_char_col;
        let row = self.ds.geo.combining_char_row;
        if col < 0 || row < 0 {
            self
        } else {
            let cell = self.cell_at(row, col);
            let joined = if cell.full() {
                cell
            } else {
                cell.appended(ch)
            };
            if cell.contents.len() == 0 {
                let s = self.with_cell(row, col, CellView { fallback: true, ..joined });
                s.with_ds(s.ds.col_moved(1, true, true))
            } else {
                self.with_cell(row, col, joined)
            }
        }
    }

    /// The screen after a character was printed. One that is not printable is dropped.
    #[verifier::opaque]
    pub open spec fn printed(self, widths: Seq<WidthRange>, ch: char) -> Screen {
        let columns = print_width(widths, ch);
        if columns == 1 || columns == 2 {
            self.wrapped_for(columns).room_made(columns).char_put(ch, columns)
        } else if columns == 0 {
            self.char_combined(ch)
        } else {
            self
        }
    }
}

/// The state of the emulator.
#[verifier::ext_equal]
pub struct EmulatorView {
    pub screen: Screen,
    pub dispatch: DispatcherView,
    pub parser: ParserView,
    pub user: UserInputState,
    pub widths: Seq<WidthRange>,
}

/// The C1 control that an escape sequence with the given final character encodes in seven
/// bits.
pub open spec fn c1_control(ch: char) -> char {
    (ch as u32 + 0x40) as char
}

impl EmulatorView {
    pub open spec fn valid(self) -> bool {
        &&& self.screen.valid()
        &&& self.parser.valid()
    }

    /// After the function with the given key was run.
    pub open spec fn dispatched(self, ty: FunctionType, ch: char) -> EmulatorView {
        EmulatorView {
            screen: self.dispatch.screen_after(ty, ch, self.screen),
            dispatch: self.dispatch.dispatched(ty, ch, self.screen),
            ..self
        }
    }

    /// After an escape sequence, which may be the 7-bit encoding of a C1 control.
    pub open spec fn escape_dispatched(self, ch: char) -> EmulatorView {
        if self.dispatch.dispatch_chars.len() == 0 && '\u{40}' <= ch <= '\u{5f}' {
            self.dispatched(FunctionType::Control, c1_control(ch))
        } else {
            self.dispatched(FunctionType::Escape, ch)
        }
    }

    /// After an action that carries a character.
    pub open spec fn char_acted(self, kind: Kind, ch: char) -> EmulatorView {
        match kind {
            Kind::Print => EmulatorView { screen: self.screen.printed(self.widths, ch), ..self },
            Kind::Execute => self.dispatched(FunctionType::Control, ch),
            Kind::Param => EmulatorView { dispatch: self.dispatch.param_added(ch), ..self },
            Kind::Collect => EmulatorView { dispatch: self.dispatch.collected(ch), ..self },
            Kind::CsiDispatch => self.dispatched(FunctionType::Csi, ch),
            Kind::EscDispatch => self.escape_dispatched(ch),
            Kind::OscPut => EmulatorView { dispatch: self.dispatch.osc_added(ch), ..self },
            _ => self.plainly_acted(kind),
        }
    }

    /// After an action that needs no character. Hook, Put and Unhook carry device control
    /// strings, which are ignored.
    pub open spec fn plainly_acted(self, kind: Kind) -> EmulatorView {
        match kind {
            Kind::Clear => EmulatorView { dispatch: self.dispatch.cleared(), ..self },
            Kind::OscStart => EmulatorView {
                dispatch: DispatcherView { osc: Seq::empty(), ..self.dispatch },
                ..self
            },
            Kind::OscEnd => EmulatorView {
                screen: osc_performed(self.dispatch.osc, self.screen),
                ..self
            },
            _ => self,
        }
    }

    /// After one parser action.
    #[verifier::opaque]
    pub open spec fn acted(self, action: Action) -> EmulatorView {
        match action.ch {
            Some(ch) => self.char_acted(action.kind, ch),
            None => self.plainly_acted(action.kind),
        }
    }

    /// After a run of parser actions.
    pub open spec fn all_acted(self, actions: Seq<Action>) -> EmulatorView
        decreases actions.len(),
    {
        if actions.len() == 0 {
            self
        } else {
            self.all_acted(actions.drop_last()).acted(actions.last())
        }
    }

    /// After one byte from the host.
    #[verifier::opaque]
    pub open spec fn byte_fed(self, b: u8) -> EmulatorView {
        let fed = self.parser.fed(b);
        EmulatorView {
            parser: ParserView { state: fed.state, buf: fed.buf },
            ..self
        }.all_acted(fed.raised)
    }

    /// After bytes from the host.
    pub open spec fn fed(self, bytes: Seq<u8>) -> EmulatorView
        decreases bytes.len(),
    {
        if bytes.len() == 0 {
            self
        } else {
            self.fed(bytes.drop_last()).byte_fed(bytes.last())
        }
    }

    /// A terminal that has not seen any input.
    pub open spec fn initial(width: int, height: int, gen: u64, widths: Seq<WidthRange>) -> EmulatorView {
        EmulatorView {
            screen: Screen::initial(width, height, gen),
            dispatch: DispatcherView::initial(),
            parser: ParserView { state: State::Ground, buf: Seq::empty() },
            user: UserInputState::Ground,
            widths,
        }
    }
}

/// Feeding bytes in two parts gives what feeding them at once gives: how the input is cut
/// into reads does not matter.
pub proof fn feeding_in_parts_is_feeding_at_once(e: EmulatorView, a: Seq<u8>, b: Seq<u8>)
    ensures
        e.fed(a).fed(b) == e.fed(a + b),
    decreases b.len(),
{
    if b.len() == 0 {
        assert(a + b =~= a);
    } else {
        feeding_in_parts_is_feeding_at_once(e, a, b.drop_last());
        assert((a + b).drop_last() =~= a + b.drop_last());
    }
}

/// A terminal: bytes in, screen state out.
#[derive(Debug)]
pub struct Emulator {
    fb: Framebuffer,
    dispatch: Dispatcher,
    parser: Utf8Parser,
    user: UserInput,
    widths: Rc<Widths>,
}

impl View for Emulator {
    type V = EmulatorView;

    closed spec fn view(&self) -> EmulatorView {
        EmulatorView {
            screen: self.fb@,
            dispatch: self.dispatch@,
            parser: self.parser@,
            user: self.user@,
            widths: self.widths@,
        }
    }
}

impl Clone for Emulator {
    fn clone(&self) -> (res: Self)
        ensures
            res@ == (EmulatorView {
                screen: Screen { next_gen: res@.screen.next_gen, ..self@.screen },
                ..self@
            }),
    {
        Emulator {
            fb: self.fb.clone(),
            dispatch: self.dispatch.clone(),
            parser: self.parser.clone(),
            user: self.user,
            widths: share(&self.widths),
        }
    }
}

/// Wraps to the next line before a character is printed, if that is due.
fn wrap_for(fb: &mut Framebuffer, columns: i32)
    requires
        old(fb)@.valid(),
    ensures
        final(fb)@ == old(fb)@.wrapped_for(columns as int),
        final(fb)@.valid(),
{
    reveal(Screen::wrapped_for);
    if fb.ds.auto_wrap_mode && fb.ds.next_print_will_wrap {
        set_row_wrap(fb, true);
        crate::functions::new_line(fb);
        return ;
    }
    if fb.ds.auto_wrap_mode && columns == 2 && fb.ds.cursor_col() == fb.ds.width() - 1 {
        // Wrap a two-cell character when there is no room, even without the will-wrap
        // flag.
        reset_cell_here(fb);
        // There is no consistent way to make the downstream terminal set the wrap-around
        // copy-and-paste flag on a row that ends with an empty cell because a wide
        // character wrapped to the next line.
        set_row_wrap(fb, false);
        crate::functions::new_line(fb);
    }
}

fn reset_cell_here(fb: &mut Framebuffer)
    requires
        old(fb)@.valid(),
    ensures
        final(fb)@ == old(fb)@.with_cell(-1, -1, CellView::blank(old(fb)@.background())),
        final(fb)@.valid(),
        final(fb)@.ds == old(fb)@.ds,
{
    fb.reset_cell(-1, -1);
}

fn set_row_wrap(fb: &mut Framebuffer, w: bool)
    requires
        old(fb)@.valid(),
    ensures
        final(fb)@ == old(fb)@.row_wrap_set(w),
        final(fb)@.valid(),
{
    proof {
        lemma_with_row_valid(fb@, -1, fb@.rows[fb@.ds.geo.cursor_row].with_wrap(w));
    }
    fb.mutable_row(-1).set_wrap(w);
}

fn insert_cell_here(fb: &mut Framebuffer)
    requires
        old(fb)@.valid(),
    ensures
        final(fb)@ == old(fb)@.cell_inserted_here(),
        final(fb)@.valid(),
        final(fb)@.ds == old(fb)@.ds,
{
    proof {
        let r = fb@.rows[fb@.ds.geo.cursor_row];
        assert(r.cells.len() == fb@.ds.geo.width);
        lemma_with_row_valid(
            fb@,
            -1,
            r.cell_inserted(fb@.ds.geo.cursor_col, fb@.background()),
        );
    }
    let col = fb.ds.cursor_col();
    fb.insert_cell(-1, col);
}

fn make_room(fb: &mut Framebuffer, columns: i32)
    requires
        old(fb)@.valid(),
    ensures
        final(fb)@ == old(fb)@.room_made(columns as int),
        final(fb)@.valid(),
{
    reveal(Screen::room_made);
    if fb.ds.insert_mode {
        if columns == 2 {
            insert_cell_here(fb);
        }
        insert_cell_here(fb);
    }
}

/// Puts a character at the cursor and moves past it.
fn put_char(fb: &mut Framebuffer, ch: char, columns: i32)
    requires
        old(fb)@.valid(),
        columns == 1 || columns == 2,
    ensures
        final(fb)@ == old(fb)@.char_put(ch, columns as int),
        final(fb)@.valid(),
{
    reveal(Screen::char_put);
    let col = fb.ds.cursor_col();
    set_cell_here(fb, ch, columns == 2);
    // A wide character covers the following cell, which must be blanked.
    if columns == 2 && col + 1 < fb.ds.width() {
        fb.reset_cell(-1, col + 1);
    }
    fb.ds.move_col(columns, true, true);
}

fn set_cell_here(fb: &mut Framebuffer, ch: char, wide: bool)
    requires
        old(fb)@.valid(),
    ensures
        final(fb)@ == old(fb)@.with_cell(
            -1,
            -1,
            old(fb)@.printed_cell(
                ch,
                if wide {
                    2
                } else {
                    1
                },
            ),
        ),
        final(fb)@.valid(),
        final(fb)@.ds == old(fb)@.ds,
{
    let bg = fb.ds.background_rendition();
    let r = *fb.ds.renditions();
    let h = fb.ds.hyperlink().clone();
    let cell = fb.mutable_cell(-1, -1);
    cell.reset(bg);
    cell.append(ch);
    cell.set_wide(wide);
    cell.set_renditions(r);
    cell.set_hyperlink(h);
    assert(cell@.contents =~= seq![ch]);
    assert(cell@ =~= old(fb)@.printed_cell(
        ch,
        if wide {
            2
        } else {
            1
        },
    ));
}

/// Joins a combining character to the cell holding the base character, which a resize may
/// have moved off screen.
fn combine_char(fb: &mut Framebuffer, ch: char)
    requires
        old(fb)@.valid(),
    ensures
        final(fb)@ == old(fb)@.char_combined(ch),
        final(fb)@.valid(),
{
    reveal(Screen::char_combined);
    let was_empty: bool;
    match fb.combining_cell() {
        Some(cell) => {
            was_empty = cell.is_empty();
            // The cell starts with a combining character if it is empty. It is not
            // necessarily the target for a new base character -- at the start of a line,
            // or after the base was cleared by ED or EL.
            if !cell.is_full() {
                cell.append(ch);
            }
            if was_empty {
                cell.set_fallback(true);
            }
        },
        None => {
            return ;
        },
    }
    if was_empty {
        fb.ds.move_col(1, true, true);
    }
}

/// Prints one character.
fn print(fb: &mut Framebuffer, widths: &Widths, ch: char)
    requires
        old(fb)@.valid(),
    ensures
        final(fb)@ == old(fb)@.printed(widths@, ch),
        final(fb)@.valid(),
{
    reveal(Screen::printed);
    // Check for printing ISO 8859-1 first; a cheap way to catch common narrow text without
    // consulting the table.
    let chwidth: i32 = if ch == '\0' {
        -1
    } else if Cell::isprint_iso8859_1(ch) {
        1
    } else {
        match widths.wcwidth(ch) {
            Some(w) => w as i32,
            None => -1,
        }
    };
    if chwidth == 1 || chwidth == 2 {
        wrap_for(fb, chwidth);
        make_room(fb, chwidth);
        put_char(fb, ch, chwidth);
        return ;
    }
    if chwidth == 0 {
        combine_char(fb, ch);
    }
}

impl Emulator {
    /// A terminal that knows the widths of the portable character set.
    pub fn new(width: i32, height: i32) -> (res: Self)
        requires
            1 <= width <= MAX_DIMENSION,
            1 <= height <= MAX_DIMENSION,
        ensures
            res@.valid(),
            exists|gen: u64|
                res@ == EmulatorView::initial(
                    width as int,
                    height as int,
                    gen,
                    crate::widths::ascii_ranges(),
                ),
    {
        Emulator::with_widths(width, height, Rc::new(Widths::default()))
    }

    /// A terminal that knows the given character widths.
    pub fn with_widths(width: i32, height: i32, widths: Rc<Widths>) -> (res: Self)
        requires
            1 <= width <= MAX_DIMENSION,
            1 <= height <= MAX_DIMENSION,
        ensures
            res@.valid(),
            exists|gen: u64|
                res@ == EmulatorView::initial(width as int, height as int, gen, widths@),
    {
        let res = Emulator {
            fb: Framebuffer::new(width, height),
            dispatch: Dispatcher::new(),
            parser: Utf8Parser::new(),
            user: UserInput::new(),
            widths,
        };
        proof {
            let gen = choose|gen: u64|
                res.fb@ == Screen::initial(width as int, height as int, gen);
            assert(res@ == EmulatorView::initial(width as int, height as int, gen, widths@));
        }
        res
    }

    pub fn fb(&self) -> (fb: &Framebuffer)
        ensures
            fb@ == self@.screen,
    {
        &self.fb
    }

    pub fn fb_mut(&mut self) -> (fb: &mut Framebuffer)
        ensures
            fb@ == old(self)@.screen,
            final(self)@ == (EmulatorView { screen: final(fb)@, ..old(self)@ }),
    {
        &mut self.fb
    }

    pub fn user_mut(&mut self) -> (user: &mut UserInput)
        ensures
            user@ == old(self)@.user,
            final(self)@ == (EmulatorView { user: final(user)@, ..old(self)@ }),
    {
        &mut self.user
    }

    /// The character widths this terminal goes by.
    pub fn widths(&self) -> (w: Rc<Widths>)
        ensures
            w@ == self@.widths,
    {
        share(&self.widths)
    }

    /// Take the reply the terminal owes the application, clearing it.
    pub fn read_octets_to_host(&mut self) -> (s: String)
        ensures
            s@ == old(self)@.dispatch.reply,
            final(self)@ == (EmulatorView {
                dispatch: DispatcherView { reply: Seq::empty(), ..old(self)@.dispatch },
                ..old(self)@
            }),
    {
        self.dispatch.take_reply()
    }

    pub fn clear_color_queries(&mut self)
        ensures
            final(self)@ == (EmulatorView {
                screen: Screen { color_queries: Seq::empty(), ..old(self)@.screen },
                ..old(self)@
            }),
            old(self)@.valid() ==> final(self)@.valid(),
    {
        self.fb.clear_color_queries();
    }

    /// Changes the size of the screen, to the nearest one a terminal can have.
    pub fn resize(&mut self, width: i32, height: i32)
        requires
            old(self)@.valid(),
        ensures
            final(self)@ == (EmulatorView {
                screen: old(self)@.screen.resized(
                    window_dimension(width as int),
                    window_dimension(height as int),
                ),
                ..old(self)@
            }),
            final(self)@.valid(),
    {
        let (width, height) = clamp_size(width, height);
        self.fb.resize(width, height);
    }

    /// Feed bytes from the host.
    pub fn input(&mut self, bytes: &[u8])
        requires
            old(self)@.valid(),
        ensures
            final(self)@ == old(self)@.fed(bytes@),
            final(self)@.valid(),
    {
        let mut i: usize = 0;
        assert(bytes@.subrange(0, 0) =~= Seq::<u8>::empty());
        while i < bytes.len()
            invariant
                i <= bytes.len(),
                self@.valid(),
                self@ == old(self)@.fed(bytes@.subrange(0, i as int)),
            decreases bytes.len() - i,
        {
            proof {
                let next = bytes@.subrange(0, i + 1);
                assert(next.drop_last() =~= bytes@.subrange(0, i as int));
            }
            self.input_byte(bytes[i]);
            i = i + 1;
        }
        assert(bytes@.subrange(0, i as int) =~= bytes@);
    }

    fn input_byte(&mut self, b: u8)
        requires
            old(self)@.valid(),
        ensures
            final(self)@ == old(self)@.byte_fed(b),
            final(self)@.valid(),
    {
        reveal(EmulatorView::byte_fed);
        let mut actions: Vec<Action> = Vec::new();
        self.parser.input(b, &mut actions);
        let ghost start = self@;
        let ghost fed = old(self)@.parser.fed(b);
        assert(actions@ =~= fed.raised);
        assert(start == (EmulatorView {
            parser: ParserView { state: fed.state, buf: fed.buf },
            ..old(self)@
        }));
        let mut i: usize = 0;
        assert(actions@.subrange(0, 0) =~= Seq::<Action>::empty());
        while i < actions.len()
            invariant
                i <= actions.len(),
                self@.valid(),
                self@ == start.all_acted(actions@.subrange(0, i as int)),
            decreases actions.len() - i,
        {
            proof {
                let next = actions@.subrange(0, i + 1);
                assert(next.drop_last() =~= actions@.subrange(0, i as int));
            }
            self.act(&actions[i]);
            i = i + 1;
        }
        assert(actions@.subrange(0, i as int) =~= actions@);
    }

    /// Apply one parser action.
    pub fn act(&mut self, action: &Action)
        requires
            old(self)@.valid(),
        ensures
            final(self)@ == old(self)@.acted(*action),
            final(self)@.valid(),
    {
        reveal(EmulatorView::acted);
        match action.ch {
            Some(ch) => self.act_char(action.kind, ch),
            None => self.act_plain(action.kind),
        }
    }

    fn act_char(&mut self, kind: Kind, ch: char)
        requires
            old(self)@.valid(),
        ensures
            final(self)@ == old(self)@.char_acted(kind, ch),
            final(self)@.valid(),
    {
        match kind {
            Kind::Print => {
                print(&mut self.fb, &self.widths, ch);
                return ;
            },
            Kind::Execute => {
                self.dispatch.dispatch(FunctionType::Control, ch, &mut self.fb);
                return ;
            },
            Kind::Param => {
                self.dispatch.new_param_char(ch);
                return ;
            },
            Kind::Collect => {
                self.dispatch.collect(ch);
                return ;
            },
            Kind::CsiDispatch => {
                self.dispatch.dispatch(FunctionType::Csi, ch, &mut self.fb);
                return ;
            },
            Kind::EscDispatch => {
                self.esc_dispatch(ch);
                return ;
            },
            Kind::OscPut => {
                self.dispatch.osc_put(ch);
                return ;
            },
            _ => {
                self.act_plain(kind);
                return ;
            },
        }
    }

    fn act_plain(&mut self, kind: Kind)
        requires
            old(self)@.valid(),
        ensures
            final(self)@ == old(self)@.plainly_acted(kind),
            final(self)@.valid(),
    {
        match kind {
            Kind::Clear => {
                self.dispatch.clear();
                return ;
            },
            Kind::OscStart => {
                self.dispatch.osc_start();
                return ;
            },
            Kind::OscEnd => {
                self.dispatch.osc_dispatch(&mut self.fb);
                return ;
            },
            // Hook, Put and Unhook carry device control strings, which are ignored.
            _ => {},
        }
    }

    fn esc_dispatch(&mut self, ch: char)
        requires
            old(self)@.valid(),
        ensures
            final(self)@ == old(self)@.escape_dispatched(ch),
            final(self)@.valid(),
    {
        // Handle the 7-bit ESC encoding of a C1 control character.
        if self.dispatch.dispatch_chars().is_empty() && '\u{40}' <= ch && ch <= '\u{5f}' {
            let code: u8 = (ch as u32 + 0x40) as u8;
            self.dispatch.dispatch(FunctionType::Control, code as char, &mut self.fb);
        } else {
            self.dispatch.dispatch(FunctionType::Escape, ch, &mut self.fb);
        }
    }
}

impl PartialEq for Emulator {
    /// Only the screen matters; the dispatcher and user-input state are transient.
    fn eq(&self, other: &Self) -> (r: bool)
        ensures
            r ==> self@.screen.rows == other@.screen.rows && self@.screen.rest_same(
                other@.screen,
            ),
    {
        self.fb == other.fb
    }
}

impl vstd::std_specs::cmp::PartialEqSpecImpl for Emulator {
    open spec fn obeys_eq_spec() -> bool {
        false
    }

    open spec fn eq_spec(&self, other: &Self) -> bool {
        self@.screen.rows == other@.screen.rows && self@.screen.rest_same(other@.screen)
    }
}

impl Eq for Emulator {

}

} // verus!
