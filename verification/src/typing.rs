//! What a terminal makes of text: characters, escape sequences and controls, one at a time.

use vstd::prelude::*;
use vstd::utf8::*;

use crate::dispatcher::{
    entry_for, is_digit, osc_performed, param_value, params_in, performed, scanned,
    DispatcherView, FunctionType, ParamScan, MAXIMUM_CLIPBOARD_SIZE, MAX_PARAM_BYTES,
};
use crate::draw_state::DrawView;
use crate::emulator::{c1_control, feeding_in_parts_is_feeding_at_once, EmulatorView};
use crate::framebuffer::Screen;
use crate::functions::PARAM_MAX;
use crate::parser::{Action, Fed, Kind, ParserView, State};
use crate::text::{decimal, digit};
use crate::utf8::{decoding, scalar_value, Decoded};

verus! {

impl EmulatorView {
    /// After one character, with none half decoded.
    #[verifier::opaque]
    pub open spec fn char_fed(self, c: char) -> EmulatorView {
        EmulatorView {
            parser: ParserView { state: self.parser.state.after(c), ..self.parser },
            ..self
        }.all_acted(self.parser.state.raised(c))
    }

    /// After text.
    pub open spec fn typed(self, text: Seq<char>) -> EmulatorView
        decreases text.len(),
    {
        if text.len() == 0 {
            self
        } else {
            self.typed(text.drop_last()).char_fed(text.last())
        }
    }
}

/// Typing one text after another is typing both at once.
pub proof fn lemma_typed_concat(e: EmulatorView, a: Seq<char>, b: Seq<char>)
    ensures
        e.typed(a + b) == e.typed(a).typed(b),
    decreases b.len(),
{
    if b.len() == 0 {
        assert(a + b =~= a);
    } else {
        lemma_typed_concat(e, a, b.drop_last());
        assert((a + b).drop_last() =~= a + b.drop_last());
    }
}

/// Typing a single character feeds it.
pub proof fn lemma_typed_one(e: EmulatorView, c: char)
    ensures
        e.typed(seq![c]) == e.char_fed(c),
{
    assert(seq![c].drop_last() =~= Seq::empty());
    assert(e.typed(seq![c].drop_last()) == e);
}

/// The state of the parser is not touched by what it raises.
proof fn lemma_acted_keeps_parser(e: EmulatorView, actions: Seq<Action>)
    ensures
        e.all_acted(actions).parser == e.parser,
        e.all_acted(actions).widths == e.widths,
        e.all_acted(actions).user == e.user,
    decreases actions.len(),
{
    if actions.len() > 0 {
        lemma_acted_keeps_parser(e, actions.drop_last());
        reveal(EmulatorView::acted);
    }
}

/// Feeding a character moves the parser on and keeps the widths and the user's input.
proof fn lemma_char_fed_keeps(e: EmulatorView, c: char)
    ensures
        e.char_fed(c).parser.buf == e.parser.buf,
        e.char_fed(c).parser.state == e.parser.state.after(c),
        e.char_fed(c).widths == e.widths,
        e.char_fed(c).user == e.user,
{
    reveal(EmulatorView::char_fed);
    lemma_acted_keeps_parser(
        EmulatorView {
            parser: ParserView { state: e.parser.state.after(c), ..e.parser },
            ..e
        },
        e.parser.state.raised(c),
    );
}

proof fn lemma_two_bytes(v: u32)
    by (bit_vector)
    requires
        0x80 <= v <= 0x7ff,
    ensures
        0xc2 <= (0xC0u8 | ((v >> 6) & 0x1F) as u8) <= 0xdf,
        0x80 <= (0x80u8 | (v & 0x3F) as u8) <= 0xbf,
        ((0xC0u8 | ((v >> 6) & 0x1F) as u8) - 0xc0) * 64 + ((0x80u8 | (v & 0x3F) as u8) - 0x80)
            == v,
{
}

proof fn lemma_three_bytes(v: u32)
    by (bit_vector)
    requires
        0x800 <= v <= 0xffff,
    ensures
        0xe0 <= (0xE0u8 | ((v >> 12) & 0x0F) as u8) <= 0xef,
        0x80 <= (0x80u8 | ((v >> 6) & 0x3F) as u8) <= 0xbf,
        0x80 <= (0x80u8 | (v & 0x3F) as u8) <= 0xbf,
        ((0xE0u8 | ((v >> 12) & 0x0F) as u8) - 0xe0) * 4096 + ((0x80u8 | ((v >> 6)
            & 0x3F) as u8) - 0x80) * 64 + ((0x80u8 | (v & 0x3F) as u8) - 0x80) == v,
{
}

proof fn lemma_four_bytes(v: u32)
    by (bit_vector)
    requires
        0x10000 <= v <= 0x10ffff,
    ensures
        0xf0 <= (0xF0u8 | ((v >> 18) & 0x7) as u8) <= 0xf7,
        0x80 <= (0x80u8 | ((v >> 12) & 0x3F) as u8) <= 0xbf,
        0x80 <= (0x80u8 | ((v >> 6) & 0x3F) as u8) <= 0xbf,
        0x80 <= (0x80u8 | (v & 0x3F) as u8) <= 0xbf,
        ((0xF0u8 | ((v >> 18) & 0x7) as u8) - 0xf0) * 262144 + ((0x80u8 | ((v >> 12)
            & 0x3F) as u8) - 0x80) * 4096 + ((0x80u8 | ((v >> 6) & 0x3F) as u8) - 0x80) * 64 + ((
        0x80u8 | (v & 0x3F) as u8) - 0x80) == v,
{
}

/// A byte that leaves a character incomplete is held back.
proof fn lemma_byte_held(e: EmulatorView, b: u8)
    requires
        decoding(e.parser.buf.push(b)) == Decoded::Incomplete,
        e.parser.buf.len() < 4,
        e.parser.buf.len() > 0 || b > 0x7f,
    ensures
        e.byte_fed(b) == (EmulatorView {
            parser: ParserView { buf: e.parser.buf.push(b), ..e.parser },
            ..e
        }),
{
    reveal(EmulatorView::byte_fed);
    reveal(ParserView::fed);
}

/// A byte that completes a character lets it through.
proof fn lemma_byte_completes(e: EmulatorView, b: u8, c: char, held: Seq<u8>)
    requires
        e.parser.buf == held,
        0 < held.len() < 4,
        decoding(held.push(b)) == Decoded::Char(c, (held.len() + 1) as usize),
    ensures
        e.byte_fed(b) == (EmulatorView {
            parser: ParserView { buf: Seq::empty(), ..e.parser },
            ..e
        }).char_fed(c),
{
    reveal(EmulatorView::byte_fed);
    reveal(EmulatorView::char_fed);
    reveal(ParserView::fed);
    let n = held.len() + 1;
    let start = Fed { state: e.parser.state, buf: held.push(b), raised: Seq::empty() };
    let done = start.then_char(c, held.push(b).skip(n as int));
    assert(held.push(b).skip(n as int) =~= Seq::empty());
    assert(start.drained(n as int) == done.drained(0));
    assert(done.drained(0) == done);
    assert(done.raised =~= e.parser.state.raised(c));
}

/// Feeding the encoding of a character is feeding the character.
proof fn lemma_encoded_char(e: EmulatorView, c: char)
    requires
        e.parser.buf.len() == 0,
    ensures
        e.fed(encode_scalar(c as u32)) == e.char_fed(c),
{
    char_is_scalar(c);
    let v = c as u32;
    let bytes = encode_scalar(v);
    assert(e.parser.buf =~= Seq::empty());
    if has_width_1_encoding(v) {
        let b = leading_byte_width_1(v);
        assert(b == v) by {
            assert((v & 0x7F) as u8 == v) by (bit_vector)
                requires
                    v <= 0x7f,
            ;
        }
        assert(bytes.drop_last() =~= Seq::empty());
        assert(e.fed(bytes.drop_last()) == e);
        reveal(EmulatorView::byte_fed);
        reveal(EmulatorView::char_fed);
        reveal(ParserView::fed);
        assert(b as char == c);
    } else if has_width_2_encoding(v) {
        lemma_two_bytes(v);
        let (b1, b2) = (leading_byte_width_2(v), last_continuation_byte(v));
        let one = seq![b1];
        assert(bytes.drop_last() =~= one);
        assert(one.drop_last() =~= Seq::empty());
        assert(e.fed(one.drop_last()) == e);
        assert(e.parser.buf.push(b1) =~= one);
        lemma_byte_held(e, b1);
        let e1 = e.byte_fed(b1);
        assert(e.fed(one) == e1);
        assert(one.push(b2) =~= bytes);
        assert(scalar_value(bytes, 2) == v);
        assert(decoding(one.push(b2)) == Decoded::Char(c, 2));
        lemma_byte_completes(e1, b2, c, one);
        assert((EmulatorView {
            parser: ParserView { buf: Seq::empty(), ..e1.parser },
            ..e1
        }) =~= e);
    } else if has_width_3_encoding(v) {
        lemma_three_bytes(v);
        let (b1, b2, b3) = (
            leading_byte_width_3(v),
            second_last_continuation_byte(v),
            last_continuation_byte(v),
        );
        let one = seq![b1];
        let two = seq![b1, b2];
        assert(bytes.drop_last() =~= two);
        assert(two.drop_last() =~= one);
        assert(one.drop_last() =~= Seq::empty());
        assert(e.fed(one.drop_last()) == e);
        assert(e.parser.buf.push(b1) =~= one);
        lemma_byte_held(e, b1);
        let e1 = e.byte_fed(b1);
        assert(e.fed(one) == e1);
        assert(one.push(b2) =~= two);
        lemma_byte_held(e1, b2);
        let e2 = e1.byte_fed(b2);
        assert(e.fed(two) == e2);
        assert(two.push(b3) =~= bytes);
        assert(scalar_value(bytes, 3) == v);
        assert(decoding(two.push(b3)) == Decoded::Char(c, 3));
        lemma_byte_completes(e2, b3, c, two);
        assert((EmulatorView {
            parser: ParserView { buf: Seq::empty(), ..e2.parser },
            ..e2
        }) =~= e);
    } else {
        lemma_four_bytes(v);
        let (b1, b2, b3, b4) = (
            leading_byte_width_4(v),
            third_last_continuation_byte(v),
            second_last_continuation_byte(v),
            last_continuation_byte(v),
        );
        let one = seq![b1];
        let two = seq![b1, b2];
        let three = seq![b1, b2, b3];
        assert(bytes.drop_last() =~= three);
        assert(three.drop_last() =~= two);
        assert(two.drop_last() =~= one);
        assert(one.drop_last() =~= Seq::empty());
        assert(e.fed(one.drop_last()) == e);
        assert(e.parser.buf.push(b1) =~= one);
        lemma_byte_held(e, b1);
        let e1 = e.byte_fed(b1);
        assert(e.fed(one) == e1);
        assert(one.push(b2) =~= two);
        lemma_byte_held(e1, b2);
        let e2 = e1.byte_fed(b2);
        assert(e.fed(two) == e2);
        assert(two.push(b3) =~= three);
        lemma_byte_held(e2, b3);
        let e3 = e2.byte_fed(b3);
        assert(e.fed(three) == e3);
        assert(three.push(b4) =~= bytes);
        assert(scalar_value(bytes, 4) == v);
        assert(decoding(three.push(b4)) == Decoded::Char(c, 4));
        lemma_byte_completes(e3, b4, c, three);
        assert((EmulatorView {
            parser: ParserView { buf: Seq::empty(), ..e3.parser },
            ..e3
        }) =~= e);
    }
}

/// Text reaches the terminal as it was written: feeding its encoding is feeding its
/// characters one by one.
pub proof fn encoded_text_arrives_as_written(e: EmulatorView, text: Seq<char>)
    requires
        e.parser.buf.len() == 0,
    ensures
        e.fed(encode_utf8(text)) == e.typed(text),
    decreases text.len(),
{
    if text.len() > 0 {
        let c = text[0];
        let rest = text.drop_first();
        lemma_encoded_char(e, c);
        lemma_char_fed_keeps(e, c);
        encoded_text_arrives_as_written(e.char_fed(c), rest);
        feeding_in_parts_is_feeding_at_once(e, encode_scalar(c as u32), encode_utf8(rest));
        lemma_typed_one(e, c);
        lemma_typed_concat(e, seq![c], rest);
        assert(seq![c] + rest =~= text);
    }
}

impl EmulatorView {
    /// Is the terminal between sequences?
    pub open spec fn settled(self) -> bool {
        self.parser.state == State::Ground && self.parser.buf.len() == 0
    }

    /// Is `after` this terminal with another screen, whatever its dispatcher has gathered?
    pub open spec fn shows(self, screen: Screen, after: EmulatorView) -> bool {
        after == EmulatorView { screen, dispatch: after.dispatch, ..self }
    }

    /// The terminal with its parser in another state.
    pub open spec fn in_state(self, state: State) -> EmulatorView {
        EmulatorView { parser: ParserView { state, ..self.parser }, ..self }
    }

    /// The terminal with another dispatcher.
    pub open spec fn with_dispatch(self, dispatch: DispatcherView) -> EmulatorView {
        EmulatorView { dispatch, ..self }
    }
}

proof fn lemma_one_raised(e: EmulatorView, c: char, next: State, a: Action)
    requires
        e.parser.state.after(c) == next,
        e.parser.state.raised(c) == seq![a],
    ensures
        e.char_fed(c) == e.in_state(next).acted(a),
{
    reveal(EmulatorView::char_fed);
    let m = e.in_state(next);
    assert(seq![a].drop_last() =~= Seq::empty());
    assert(m.all_acted(seq![a].drop_last()) == m);
}

/// An escape character starts a sequence.
proof fn lemma_escape(e: EmulatorView)
    requires
        e.parser.state == State::Ground,
    ensures
        e.char_fed('\x1b') == e.in_state(State::Escape).with_dispatch(e.dispatch.cleared()),
{
    reveal(State::after);
    reveal(State::raised);
    let a = Action { kind: Kind::Clear, ch: None };
    assert(State::Ground.raised('\x1b') =~= seq![a]);
    lemma_one_raised(e, '\x1b', State::Escape, a);
    reveal(EmulatorView::acted);
}

proof fn lemma_bracket(e: EmulatorView)
    requires
        e.parser.state == State::Escape,
    ensures
        e.char_fed('[') == e.in_state(State::CsiEntry).with_dispatch(e.dispatch.cleared()),
{
    reveal(State::after);
    reveal(State::raised);
    let a = Action { kind: Kind::Clear, ch: None };
    assert(State::Escape.raised('[') =~= seq![a]);
    lemma_one_raised(e, '[', State::CsiEntry, a);
    reveal(EmulatorView::acted);
}

/// Is this text made of digits and semicolons?
pub open spec fn is_params(s: Seq<char>) -> bool {
    forall|i: int| 0 <= i < s.len() ==> is_digit(#[trigger] s[i]) || s[i] == ';'
}

proof fn lemma_params_length(s: Seq<char>)
    requires
        is_params(s),
    ensures
        encode_utf8(s).len() == s.len(),
{
    assert(is_ascii_chars(s));
    is_ascii_chars_encode_utf8(s);
}

proof fn lemma_param(e: EmulatorView, c: char)
    requires
        e.parser.state == State::CsiEntry || e.parser.state == State::CsiParam,
        is_digit(c) || c == ';',
    ensures
        e.char_fed(c) == e.in_state(State::CsiParam).with_dispatch(e.dispatch.param_added(c)),
{
    reveal(State::after);
    reveal(State::raised);
    let a = Action { kind: Kind::Param, ch: Some(c) };
    assert(e.parser.state.raised(c) =~= seq![a]);
    lemma_one_raised(e, c, State::CsiParam, a);
    reveal(EmulatorView::acted);
}

proof fn lemma_params(e: EmulatorView, params: Seq<char>)
    requires
        e.parser.state == State::CsiEntry || e.parser.state == State::CsiParam,
        e.dispatch.params.len() == 0,
        is_params(params),
        params.len() < MAX_PARAM_BYTES,
    ensures
        e.typed(params) == e.in_state(
            if params.len() == 0 {
                e.parser.state
            } else {
                State::CsiParam
            },
        ).with_dispatch(DispatcherView { params, ..e.dispatch }),
    decreases params.len(),
{
    if params.len() == 0 {
        assert(e.dispatch.params =~= params);
    } else {
        let before = params.drop_last();
        lemma_params(e, before);
        lemma_params_length(before);
        let m = e.typed(before);
        assert(is_digit(params[params.len() - 1]) || params[params.len() - 1] == ';');
        lemma_param(m, params.last());
        assert(before.push(params.last()) =~= params);
    }
}

/// Is this the final character of a control sequence?
pub open spec fn is_final(c: char) -> bool {
    '\u{40}' <= c <= '\u{7e}'
}

proof fn lemma_final(e: EmulatorView, c: char)
    requires
        e.parser.state == State::CsiEntry || e.parser.state == State::CsiParam,
        is_final(c),
    ensures
        e.char_fed(c) == e.in_state(State::Ground).dispatched(FunctionType::Csi, c),
{
    reveal(State::after);
    reveal(State::raised);
    let a = Action { kind: Kind::CsiDispatch, ch: Some(c) };
    assert(e.parser.state.raised(c) =~= seq![a]);
    lemma_one_raised(e, c, State::Ground, a);
    reveal(EmulatorView::acted);
}

/// A control sequence: an introducer, parameters and a final character.
pub open spec fn csi(params: Seq<char>, c: char) -> Seq<char> {
    seq!['\x1b', '['] + params + seq![c]
}

/// A control sequence for a private mode.
pub open spec fn private_csi(params: Seq<char>, c: char) -> Seq<char> {
    seq!['\x1b', '[', '?'] + params + seq![c]
}

/// A terminal in which a control sequence has begun.
spec fn csi_begun(e: EmulatorView) -> EmulatorView {
    e.in_state(State::CsiEntry).with_dispatch(e.dispatch.cleared())
}

proof fn lemma_csi_begun(e: EmulatorView)
    requires
        e.settled(),
    ensures
        e.typed(seq!['\x1b', '[']) == csi_begun(e),
{
    let one = seq!['\x1b'];
    assert(seq!['\x1b', '['].drop_last() =~= one);
    lemma_typed_one(e, '\x1b');
    lemma_escape(e);
    lemma_bracket(e.char_fed('\x1b'));
    assert(e.dispatch.cleared().cleared() == e.dispatch.cleared());
}

/// The screen after a control sequence.
pub open spec fn csi_screen(s: Screen, params: Seq<char>, c: char) -> Screen {
    let unwrapped = s.with_ds(DrawView { next_print_will_wrap: false, ..s.ds });
    match entry_for(FunctionType::Csi, seq![c]) {
        Some(entry) => performed(
            entry.function,
            if entry.clears_wrap_state {
                unwrapped
            } else {
                s
            },
            params_in(params),
            c,
        ),
        None => unwrapped,
    }
}

/// A control sequence runs the function of its final character on its parameters.
pub proof fn lemma_csi(e: EmulatorView, params: Seq<char>, c: char)
    requires
        e.settled(),
        is_params(params),
        params.len() < MAX_PARAM_BYTES,
        is_final(c),
    ensures
        e.shows(csi_screen(e.screen, params, c), e.typed(csi(params, c))),
{
    let begun = csi_begun(e);
    lemma_csi_begun(e);
    lemma_params(begun, params);
    let m = begun.typed(params);
    lemma_final(m, c);
    lemma_typed_one(m, c);
    lemma_typed_concat(e, seq!['\x1b', '['], params);
    lemma_typed_concat(e, seq!['\x1b', '['] + params, seq![c]);
    reveal(DispatcherView::screen_after);
    let d = m.dispatch;
    assert(d.dispatch_chars =~= Seq::empty());
    assert(encode_utf8(d.dispatch_chars).len() == 0);
    assert(d.collected(c).dispatch_chars =~= seq![c]);
}

/// The screen after a control sequence for private modes.
pub open spec fn private_csi_screen(s: Screen, params: Seq<char>, c: char) -> Screen {
    let unwrapped = s.with_ds(DrawView { next_print_will_wrap: false, ..s.ds });
    match entry_for(FunctionType::Csi, seq!['?', c]) {
        Some(entry) => performed(
            entry.function,
            if entry.clears_wrap_state {
                unwrapped
            } else {
                s
            },
            params_in(params),
            '?',
        ),
        None => unwrapped,
    }
}

proof fn lemma_question(e: EmulatorView)
    requires
        e.parser.state == State::CsiEntry,
        e.dispatch.dispatch_chars.len() == 0,
    ensures
        e.char_fed('?') == e.in_state(State::CsiParam).with_dispatch(
            DispatcherView { dispatch_chars: seq!['?'], ..e.dispatch },
        ),
{
    reveal(State::after);
    reveal(State::raised);
    let a = Action { kind: Kind::Collect, ch: Some('?') };
    assert(e.parser.state.raised('?') =~= seq![a]);
    lemma_one_raised(e, '?', State::CsiParam, a);
    reveal(EmulatorView::acted);
    assert(e.dispatch.dispatch_chars =~= Seq::empty());
    assert(encode_utf8(e.dispatch.dispatch_chars).len() == 0);
    assert(e.dispatch.dispatch_chars.push('?') =~= seq!['?']);
}

/// A control sequence for private modes runs the function of its final character.
pub proof fn lemma_private_csi(e: EmulatorView, params: Seq<char>, c: char)
    requires
        e.settled(),
        is_params(params),
        params.len() < MAX_PARAM_BYTES,
        is_final(c),
    ensures
        e.shows(private_csi_screen(e.screen, params, c), e.typed(private_csi(params, c))),
{
    let begun = csi_begun(e);
    lemma_csi_begun(e);
    lemma_question(begun);
    lemma_typed_one(begun, '?');
    let q = begun.char_fed('?');
    lemma_params(q, params);
    let m = q.typed(params);
    lemma_final(m, c);
    lemma_typed_one(m, c);
    lemma_typed_concat(e, seq!['\x1b', '['], seq!['?']);
    assert(seq!['\x1b', '['] + seq!['?'] =~= seq!['\x1b', '[', '?']);
    lemma_typed_concat(e, seq!['\x1b', '[', '?'], params);
    lemma_typed_concat(e, seq!['\x1b', '[', '?'] + params, seq![c]);
    reveal(DispatcherView::screen_after);
    let d = m.dispatch;
    assert(d.dispatch_chars == seq!['?']);
    assert(is_ascii_chars(seq!['?']));
    is_ascii_chars_encode_utf8(seq!['?']);
    assert(d.collected(c).dispatch_chars =~= seq!['?', c]);
}

/// The screen after an escape sequence of one character.
pub open spec fn escape_screen(s: Screen, c: char) -> Screen {
    let d = DispatcherView {
        params: Seq::empty(),
        dispatch_chars: Seq::empty(),
        osc: Seq::empty(),
        reply: Seq::empty(),
    };
    if '\u{40}' <= c <= '\u{5f}' {
        d.screen_after(FunctionType::Control, c1_control(c), s)
    } else {
        d.screen_after(FunctionType::Escape, c, s)
    }
}

/// An escape sequence of one character runs the function of that character.
pub proof fn lemma_escape_sequence(e: EmulatorView, c: char)
    requires
        e.settled(),
        c == '7' || c == '8' || c == 'c' || c == 'D' || c == 'E' || c == 'H' || c == 'M',
    ensures
        e.shows(escape_screen(e.screen, c), e.typed(seq!['\x1b', c])),
{
    assert(seq!['\x1b', c].drop_last() =~= seq!['\x1b']);
    lemma_typed_one(e, '\x1b');
    lemma_escape(e);
    let m = e.char_fed('\x1b');
    reveal(State::after);
    reveal(State::raised);
    let a = Action { kind: Kind::EscDispatch, ch: Some(c) };
    assert(State::Escape.raised(c) =~= seq![a]);
    lemma_one_raised(m, c, State::Ground, a);
    reveal(EmulatorView::acted);
    reveal(DispatcherView::screen_after);
    assert(m.dispatch.dispatch_chars =~= Seq::empty());
    assert(m.dispatch.params =~= Seq::empty());
}

/// A control character runs its function.
pub proof fn lemma_control(e: EmulatorView, c: char)
    requires
        e.settled(),
        c as u32 <= 0x17,
    ensures
        e.char_fed(c) == e.dispatched(FunctionType::Control, c),
{
    reveal(State::after);
    reveal(State::raised);
    let a = Action { kind: Kind::Execute, ch: Some(c) };
    assert(e.parser.state.raised(c) =~= seq![a]);
    lemma_one_raised(e, c, State::Ground, a);
    reveal(EmulatorView::acted);
    assert(e.in_state(State::Ground) =~= e);
}

/// May this character stand in a cell or a command, being no control?
pub open spec fn is_graphic(c: char) -> bool {
    0x20 <= c as u32 <= 0x7e || c as u32 >= 0xa0
}

/// A graphic character is printed.
pub proof fn lemma_print(e: EmulatorView, c: char)
    requires
        e.settled(),
        is_graphic(c),
    ensures
        e.char_fed(c) == (EmulatorView { screen: e.screen.printed(e.widths, c), ..e }),
{
    reveal(State::after);
    reveal(State::raised);
    let a = Action { kind: Kind::Print, ch: Some(c) };
    assert(e.parser.state.raised(c) =~= seq![a]);
    lemma_one_raised(e, c, State::Ground, a);
    reveal(EmulatorView::acted);
    assert(e.in_state(State::Ground) =~= e);
}

proof fn lemma_command_begun(e: EmulatorView)
    requires
        e.settled(),
    ensures
        e.typed(seq!['\x1b', ']']) == e.in_state(State::OscString).with_dispatch(
            DispatcherView { osc: Seq::empty(), ..e.dispatch.cleared() },
        ),
{
    let one = seq!['\x1b'];
    assert(seq!['\x1b', ']'].drop_last() =~= one);
    lemma_typed_one(e, '\x1b');
    lemma_escape(e);
    let m = e.char_fed('\x1b');
    reveal(State::after);
    reveal(State::raised);
    let a = Action { kind: Kind::OscStart, ch: None };
    assert(State::Escape.raised(']') =~= seq![a]);
    lemma_one_raised(m, ']', State::OscString, a);
    reveal(EmulatorView::acted);
}

/// Is every character of a text graphic?
pub open spec fn all_graphic(s: Seq<char>) -> bool {
    forall|i: int| 0 <= i < s.len() ==> is_graphic(#[trigger] s[i])
}

/// May this character stand in an operating system command?
pub open spec fn in_command(c: char) -> bool {
    is_graphic(c) || c == '\x7f'
}

/// May every character of a text stand in an operating system command?
pub open spec fn all_in_command(s: Seq<char>) -> bool {
    forall|i: int| 0 <= i < s.len() ==> in_command(#[trigger] s[i])
}

proof fn lemma_command_char(e: EmulatorView, c: char)
    requires
        e.parser.state == State::OscString,
        in_command(c),
    ensures
        e.char_fed(c) == e.with_dispatch(e.dispatch.osc_added(c)),
{
    reveal(State::after);
    reveal(State::raised);
    let a = Action { kind: Kind::OscPut, ch: Some(c) };
    assert(e.parser.state.raised(c) =~= seq![a]);
    lemma_one_raised(e, c, State::OscString, a);
    reveal(EmulatorView::acted);
    assert(e.in_state(State::OscString) =~= e);
}

proof fn lemma_command_text(e: EmulatorView, text: Seq<char>)
    requires
        e.parser.state == State::OscString,
        e.dispatch.osc.len() == 0,
        all_in_command(text),
        text.len() <= MAXIMUM_CLIPBOARD_SIZE,
    ensures
        e.typed(text) == e.with_dispatch(DispatcherView { osc: text, ..e.dispatch }),
    decreases text.len(),
{
    if text.len() == 0 {
        assert(e.dispatch.osc =~= text);
    } else {
        let before = text.drop_last();
        lemma_command_text(e, before);
        assert(in_command(text[text.len() - 1]));
        lemma_command_char(e.typed(before), text.last());
        assert(before.push(text.last()) =~= text);
    }
}

/// An operating system command that a bell ends.
pub open spec fn command(text: Seq<char>) -> Seq<char> {
    seq!['\x1b', ']'] + text + seq!['\x07']
}

/// An operating system command that a string terminator ends.
pub open spec fn terminated_command(text: Seq<char>) -> Seq<char> {
    seq!['\x1b', ']'] + text + seq!['\x1b', '\\']
}

proof fn lemma_command_typed(e: EmulatorView, text: Seq<char>) -> (m: EmulatorView)
    requires
        e.settled(),
        all_in_command(text),
        text.len() <= MAXIMUM_CLIPBOARD_SIZE,
    ensures
        m == e.typed(seq!['\x1b', ']'] + text),
        m == e.in_state(State::OscString).with_dispatch(m.dispatch),
        m.dispatch.osc == text,
{
    lemma_command_begun(e);
    let begun = e.typed(seq!['\x1b', ']']);
    lemma_command_text(begun, text);
    lemma_typed_concat(e, seq!['\x1b', ']'], text);
    begun.typed(text)
}

/// A command is acted on when the bell ends it.
pub proof fn lemma_command(e: EmulatorView, text: Seq<char>)
    requires
        e.settled(),
        all_in_command(text),
        text.len() <= MAXIMUM_CLIPBOARD_SIZE,
    ensures
        e.shows(osc_performed(text, e.screen), e.typed(command(text))),
{
    let m = lemma_command_typed(e, text);
    lemma_typed_concat(e, seq!['\x1b', ']'] + text, seq!['\x07']);
    lemma_typed_one(m, '\x07');
    reveal(State::after);
    reveal(State::raised);
    let a = Action { kind: Kind::OscEnd, ch: None };
    assert(State::OscString.raised('\x07') =~= seq![a]);
    lemma_one_raised(m, '\x07', State::Ground, a);
    reveal(EmulatorView::acted);
}

/// The screen with no wrap pending.
pub open spec fn unwrapped(s: Screen) -> Screen {
    s.with_ds(DrawView { next_print_will_wrap: false, ..s.ds })
}

/// A command is acted on when the terminator ends it, which also cancels a pending wrap.
pub proof fn lemma_terminated_command(e: EmulatorView, text: Seq<char>)
    requires
        e.settled(),
        all_in_command(text),
        text.len() <= MAXIMUM_CLIPBOARD_SIZE,
    ensures
        e.shows(unwrapped(osc_performed(text, e.screen)), e.typed(terminated_command(text))),
{
    let m = lemma_command_typed(e, text);
    lemma_typed_concat(e, seq!['\x1b', ']'] + text, seq!['\x1b', '\\']);
    assert(seq!['\x1b', '\\'].drop_last() =~= seq!['\x1b']);
    lemma_typed_one(m, '\x1b');
    reveal(State::after);
    reveal(State::raised);
    let ended = Action { kind: Kind::OscEnd, ch: None };
    let cleared = Action { kind: Kind::Clear, ch: None };
    let both = seq![ended, cleared];
    assert(State::OscString.raised('\x1b') =~= both);
    let n = m.char_fed('\x1b');
    assert(n == m.in_state(State::Escape).acted(ended).acted(cleared)) by {
        reveal(EmulatorView::char_fed);
        let k = m.in_state(State::Escape);
        assert(both.drop_last() =~= seq![ended]);
        assert(seq![ended].drop_last() =~= Seq::empty());
        assert(k.all_acted(seq![ended].drop_last()) == k);
        assert(k.all_acted(seq![ended]) == k.acted(ended));
    }
    reveal(EmulatorView::acted);
    assert(n.screen == osc_performed(text, e.screen));
    assert(n.dispatch.dispatch_chars.len() == 0);
    let a = Action { kind: Kind::EscDispatch, ch: Some('\\') };
    assert(State::Escape.raised('\\') =~= seq![a]);
    lemma_one_raised(n, '\\', State::Ground, a);
    reveal(DispatcherView::screen_after);
    reveal(entry_for);
}

proof fn lemma_scan_decimal(p: Seq<char>, n: nat)
    requires
        scanned(p).value == -1,
        scanned(p).open,
    ensures
        scanned(p + decimal(n)) == (ParamScan {
            done: scanned(p).done,
            value: n as int,
            open: true,
        }),
    decreases n,
{
    let text = p + decimal(n);
    if n < 10 {
        assert(text.drop_last() =~= p);
        assert(text.last() == digit(n));
    } else {
        lemma_scan_decimal(p, n / 10);
        assert(text.drop_last() =~= p + decimal(n / 10));
        assert(text.last() == digit(n % 10));
    }
}

proof fn lemma_scan_semicolon(p: Seq<char>)
    ensures
        scanned(p.push(';')) == (ParamScan {
            done: scanned(p).done.push(param_value(scanned(p).value)),
            value: -1,
            open: true,
        }),
{
    assert(p.push(';').drop_last() =~= p);
}

/// Decimal digits are read as part of a parameter.
proof fn lemma_decimal_is_params(n: nat)
    ensures
        is_params(decimal(n)),
        decimal(n).len() >= 1,
    decreases n,
{
    if n >= 10 {
        lemma_decimal_is_params(n / 10);
        let before = decimal(n / 10);
        assert forall|i: int| 0 <= i < decimal(n).len() implies is_digit(#[trigger] decimal(n)[i])
            || decimal(n)[i] == ';' by {
            if i < before.len() {
                assert(decimal(n)[i] == before[i]);
            }
        }
    }
}

/// A number below a power of ten has no more digits than that.
pub proof fn lemma_decimal_length(n: nat, digits: nat, bound: nat)
    requires
        n < bound,
        digits >= 1,
        bound == vstd::arithmetic::power::pow(10, digits),
    ensures
        decimal(n).len() <= digits,
    decreases n,
{
    if n >= 10 {
        vstd::arithmetic::power::lemma_pow1(10);
        if digits == 1 {
            assert(false);
        }
        let less = vstd::arithmetic::power::pow(10, (digits - 1) as nat);
        assert(bound == 10 * less) by {
            reveal(vstd::arithmetic::power::pow);
        }
        lemma_decimal_length(n / 10, (digits - 1) as nat, less as nat);
    }
}

/// Parameters written out, each with a semicolon in front.
pub open spec fn more_params(list: Seq<int>) -> Seq<char>
    decreases list.len(),
{
    if list.len() == 0 {
        Seq::empty()
    } else {
        more_params(list.drop_last()) + seq![';'] + decimal(list.last() as nat)
    }
}

/// Are these numbers that a parameter can be?
pub open spec fn param_list(list: Seq<int>) -> bool {
    forall|i: int| 0 <= i < list.len() ==> 0 <= #[trigger] list[i] <= PARAM_MAX
}

/// Parameters spelled one after another are the two lists spelled in turn.
pub proof fn lemma_more_params_concat(a: Seq<int>, b: Seq<int>)
    ensures
        more_params(a + b) == more_params(a) + more_params(b),
    decreases b.len(),
{
    if b.len() == 0 {
        assert(a + b =~= a);
        assert(more_params(a) + more_params(b) =~= more_params(a));
    } else {
        lemma_more_params_concat(a, b.drop_last());
        assert((a + b).drop_last() =~= a + b.drop_last());
        assert(more_params(a + b) =~= more_params(a) + more_params(b));
    }
}

/// Written parameters are read back.
pub proof fn lemma_params_read_back(first: nat, list: Seq<int>)
    requires
        first <= PARAM_MAX,
        param_list(list),
    ensures
        params_in(decimal(first) + more_params(list)) == seq![first as int] + list,
        scanned(decimal(first) + more_params(list)).open,
        scanned(decimal(first) + more_params(list)).value >= 0,
        is_params(decimal(first) + more_params(list)),
    decreases list.len(),
{
    let text = decimal(first) + more_params(list);
    lemma_decimal_is_params(first);
    if list.len() == 0 {
        assert(text =~= Seq::empty() + decimal(first));
        lemma_scan_decimal(Seq::empty(), first);
        assert(params_in(text) =~= seq![first as int] + list);
    } else {
        let before = decimal(first) + more_params(list.drop_last());
        assert forall|i: int| 0 <= i < list.drop_last().len() implies 0
            <= #[trigger] list.drop_last()[i] <= PARAM_MAX by {
            assert(list.drop_last()[i] == list[i]);
        }
        lemma_params_read_back(first, list.drop_last());
        let n = list.last() as nat;
        assert(0 <= list[list.len() - 1] <= PARAM_MAX);
        lemma_scan_semicolon(before);
        lemma_scan_decimal(before.push(';'), n);
        assert(text =~= before.push(';') + decimal(n));
        assert(params_in(text) =~= seq![first as int] + list);
        lemma_decimal_is_params(n);
    }
}

} // verus!
