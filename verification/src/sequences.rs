//! How characters are told apart from sequences.

use vstd::prelude::*;

use crate::parser::{Action, Fed, Kind, ParserView, State};
use crate::utf8::{decoding, Decoded};
use crate::widths::{width_in, WidthRange};

verus! {

/// Is a sequence being read that may carry controls: one that an escape or a control sequence
/// introducer began?
pub open spec fn in_sequence(s: State) -> bool {
    ||| s == State::Escape
    ||| s == State::EscapeIntermediate
    ||| s == State::CsiEntry
    ||| s == State::CsiParam
    ||| s == State::CsiIntermediate
    ||| s == State::CsiIgnore
}

/// Is a string being read that shows nothing?
pub open spec fn in_string(s: State) -> bool {
    ||| s == State::DcsEntry
    ||| s == State::DcsParam
    ||| s == State::DcsIntermediate
    ||| s == State::DcsPassthrough
    ||| s == State::DcsIgnore
    ||| s == State::SosPmApcString
}

/// Does an action show something, or run something?
pub open spec fn has_effect(a: Action) -> bool {
    ||| a.kind == Kind::Print
    ||| a.kind == Kind::Execute
    ||| a.kind == Kind::EscDispatch
    ||| a.kind == Kind::CsiDispatch
    ||| a.kind == Kind::OscEnd
}

/// Whatever is being read can be cut short, or ended, or followed by another sequence.
pub proof fn sequences_can_be_cut_short(s: State)
    ensures
        s.after('\x18') == State::Ground,
        s.after('\x1a') == State::Ground,
        s.after('\u{9c}') == State::Ground,
        s.after('\x1b') == State::Escape,
{
    reveal(State::after);
}

/// The introducers of two characters mean what those of one do.
pub proof fn introducers_have_two_forms(s: State)
    ensures
        s.after('\x1b').after('[') == State::CsiEntry,
        s.after('\u{9b}') == State::CsiEntry,
        s.after('\x1b').after(']') == State::OscString,
        s.after('\u{9d}') == State::OscString,
        s.after('\x1b').after('P') == State::DcsEntry,
        s.after('\u{90}') == State::DcsEntry,
        s.after('\x1b').after('X') == State::SosPmApcString,
        s.after('\x1b').after('^') == State::SosPmApcString,
        s.after('\x1b').after('_') == State::SosPmApcString,
        s.after('\x1b').after('\\') == State::Ground,
{
    reveal(State::after);
}

/// Outside sequences, characters are printed and controls are run, one by one.
pub proof fn plain_characters_are_printed(ch: char)
    ensures
        State::Ground.after(ch) == State::Ground <== 0x20 <= ch as u32 <= 0x7f || ch as u32 >= 0xa0
            || ch as u32 <= 0x17,
        0x20 <= ch as u32 <= 0x7f || ch as u32 >= 0xa0 ==> State::Ground.raised(ch) == seq![
            Action { kind: Kind::Print, ch: Some(ch) },
        ],
        ch as u32 <= 0x17 ==> State::Ground.raised(ch) == seq![
            Action { kind: Kind::Execute, ch: Some(ch) },
        ],
{
    reveal(State::after);
    reveal(State::raised);
}

/// Controls in the middle of a sequence are run, and do not disturb it.
pub proof fn controls_do_not_disturb_sequences(s: State, ch: char)
    requires
        in_sequence(s),
        ch as u32 <= 0x17,
    ensures
        s.after(ch) == s,
        s.raised(ch) == seq![Action { kind: Kind::Execute, ch: Some(ch) }],
{
    reveal(State::after);
    reveal(State::raised);
}

/// A control sequence takes digits and semicolons for parameters, and ends with a letter or
/// another character of that range, which runs it. A private marker may only stand first;
/// anywhere else, like a colon, it spoils the sequence, which then ends without effect.
pub proof fn control_sequences_end_with_their_letter(s: State, ch: char)
    requires
        s == State::CsiEntry || s == State::CsiParam,
    ensures
        '0' <= ch <= '9' || ch == ';' ==> s.after(ch) == State::CsiParam && s.raised(ch) == seq![
            Action { kind: Kind::Param, ch: Some(ch) },
        ],
        '@' <= ch <= '~' ==> s.after(ch) == State::Ground && s.raised(ch) == seq![
            Action { kind: Kind::CsiDispatch, ch: Some(ch) },
        ],
        '<' <= ch <= '?' && s == State::CsiEntry ==> s.after(ch) == State::CsiParam && s.raised(ch)
            == seq![Action { kind: Kind::Collect, ch: Some(ch) }],
        ('<' <= ch <= '?' && s == State::CsiParam) || ch == ':' ==> s.after(ch)
            == State::CsiIgnore,
        '@' <= ch <= '~' ==> State::CsiIgnore.after(ch) == State::Ground
            && State::CsiIgnore.raised(ch).len() == 0,
        ' ' <= ch <= '?' ==> State::CsiIgnore.after(ch) == State::CsiIgnore
            && State::CsiIgnore.raised(ch).len() == 0,
        ' ' <= ch <= '/' ==> s.after(ch) == State::CsiIntermediate && s.raised(ch) == seq![
            Action { kind: Kind::Collect, ch: Some(ch) },
        ],
{
    reveal(State::after);
    reveal(State::raised);
}

/// An operating system command takes any graphic character, and a bell ends it.
pub proof fn commands_end_with_a_bell(ch: char)
    ensures
        ' ' <= ch <= '\x7f' || ch as u32 >= 0xa0 ==> State::OscString.after(ch) == State::OscString
            && State::OscString.raised(ch) == seq![Action { kind: Kind::OscPut, ch: Some(ch) }],
        State::OscString.after('\x07') == State::Ground,
        State::OscString.raised('\x07') == seq![Action { kind: Kind::OscEnd, ch: None }],
{
    reveal(State::after);
    reveal(State::raised);
}

/// Nothing of a string is shown or run, and nothing that may stand in it ends it.
pub proof fn strings_show_nothing(s: State, ch: char, i: int)
    requires
        in_string(s),
        ch as u32 <= 0x17 || 0x20 <= ch as u32 <= 0x7f || ch as u32 >= 0xa0,
        0 <= i < s.raised(ch).len(),
    ensures
        in_string(s.after(ch)),
        !has_effect(s.raised(ch)[i]),
{
    reveal(State::after);
    reveal(State::raised);
}

/// A string goes on with whatever may stand in it.
pub proof fn strings_go_on(s: State, ch: char)
    requires
        in_string(s),
        ch as u32 <= 0x17 || 0x20 <= ch as u32 <= 0x7f || ch as u32 >= 0xa0,
    ensures
        in_string(s.after(ch)),
{
    reveal(State::after);
}

/// An escape sequence ends with its letter, which runs it.
pub proof fn escape_sequences_end_with_their_letter(ch: char)
    requires
        '0' <= ch <= '~',
    ensures
        State::EscapeIntermediate.after(ch) == State::Ground,
        State::EscapeIntermediate.raised(ch) == seq![
            Action { kind: Kind::EscDispatch, ch: Some(ch) },
        ],
        ch != '[' && ch != ']' && ch != 'P' && ch != 'X' && ch != '^' && ch != '_' ==> {
            &&& State::Escape.after(ch) == State::Ground
            &&& State::Escape.raised(ch) == seq![Action { kind: Kind::EscDispatch, ch: Some(ch) }]
        },
{
    reveal(State::after);
    reveal(State::raised);
}

/// A byte that cannot begin a character is no character.
pub proof fn stray_bytes_are_no_characters(b: u8, rest: Seq<u8>)
    requires
        0x80 <= b < 0xc2 || b >= 0xf8,
    ensures
        decoding(seq![b] + rest) == Decoded::Invalid,
{
    assert((seq![b] + rest)[0] == b);
}

/// A character is only read from its shortest form, and is never a surrogate.
pub proof fn only_the_shortest_form_is_read(buf: Seq<u8>)
    ensures
        decoding(buf) matches Decoded::Char(c, n) ==> {
            &&& n == (if (c as u32) < 0x80 {
                1
            } else if (c as u32) < 0x800 {
                2
            } else if (c as u32) < 0x1_0000 {
                3
            } else {
                4int
            })
            &&& n <= buf.len()
            &&& !(0xd800 <= c as u32 <= 0xdfff)
            &&& c as u32 <= 0x10ffff
        },
{
}

/// A byte that cannot begin a character is shown as a replacement character.
pub proof fn stray_bytes_are_shown_as_replacements(b: u8)
    requires
        0x80 <= b < 0xc2 || b >= 0xf8,
    ensures
        ({
            let p = ParserView { state: State::Ground, buf: Seq::empty() };
            &&& p.fed(b).raised == seq![Action { kind: Kind::Print, ch: Some('\u{fffd}') }]
            &&& p.fed(b).buf.len() == 0
            &&& p.fed(b).state == State::Ground
        }),
{
    reveal(ParserView::fed);
    let p = ParserView { state: State::Ground, buf: Seq::empty() };
    let start = Fed { state: State::Ground, buf: seq![b], raised: Seq::empty() };
    assert(p.buf.push(b) =~= seq![b]);
    stray_bytes_are_no_characters(b, Seq::empty());
    assert(seq![b] + Seq::<u8>::empty() =~= seq![b]);
    let done = start.then_char('\u{fffd}', Seq::empty());
    assert(done.drained(0) == done);
    assert(start.drained(1) == done);
    plain_characters_are_printed('\u{fffd}');
    assert(done.raised =~= seq![Action { kind: Kind::Print, ch: Some('\u{fffd}') }]);
}

/// A character takes as many columns as the first range that holds it says; one that is in
/// none is not printable.
pub proof fn characters_are_as_wide_as_their_range(ranges: Seq<WidthRange>, c: char, i: int, k: int)
    requires
        0 <= i <= k <= ranges.len(),
        forall|j: int|
            i <= j < k ==> !((#[trigger] ranges[j]).first <= c as u32 <= ranges[j].last),
        k < ranges.len() ==> ranges[k].first <= c as u32 <= ranges[k].last,
    ensures
        width_in(ranges, c, i) == (if k < ranges.len() {
            Some(ranges[k].columns)
        } else {
            None
        }),
    decreases k - i,
{
    if i < k {
        characters_are_as_wide_as_their_range(ranges, c, i + 1, k);
    }
}

} // verus!
