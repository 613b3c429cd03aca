//! The X.364 escape-sequence state machine.

use vstd::prelude::*;

use crate::utf8::{decoding, Decoded, MbDecoder};

verus! {

/// What the parser tells the emulator to do.
///
/// `ch` is absent for actions raised by entering or leaving a state, which carry no
/// character of their own.
#[derive(Debug, Clone, Copy, PartialEq, Eq)]
pub struct Action {
    pub kind: Kind,
    pub ch: Option<char>,
}

#[derive(Debug, Clone, Copy, PartialEq, Eq, Structural)]
pub enum Kind {
    Ignore,
    Print,
    Execute,
    Clear,
    Collect,
    Param,
    EscDispatch,
    CsiDispatch,
    Hook,
    Put,
    Unhook,
    OscStart,
    OscPut,
    OscEnd,
}

impl Kind {
    /// The name of an action of this kind.
    pub open spec fn spelling(self) -> Seq<char> {
        match self {
            Kind::Ignore => "Ignore"@,
            Kind::Print => "Print"@,
            Kind::Execute => "Execute"@,
            Kind::Clear => "Clear"@,
            Kind::Collect => "Collect"@,
            Kind::Param => "Param"@,
            Kind::EscDispatch => "Esc_Dispatch"@,
            Kind::CsiDispatch => "CSI_Dispatch"@,
            Kind::Hook => "Hook"@,
            Kind::Put => "Put"@,
            Kind::Unhook => "Unhook"@,
            Kind::OscStart => "OSC_Start"@,
            Kind::OscPut => "OSC_Put"@,
            Kind::OscEnd => "OSC_End"@,
        }
    }

    pub fn name(self) -> (s: &'static str)
        ensures
            s@ == self.spelling(),
    {
        match self {
            Kind::Ignore => "Ignore",
            Kind::Print => "Print",
            Kind::Execute => "Execute",
            Kind::Clear => "Clear",
            Kind::Collect => "Collect",
            Kind::Param => "Param",
            Kind::EscDispatch => "Esc_Dispatch",
            Kind::CsiDispatch => "CSI_Dispatch",
            Kind::Hook => "Hook",
            Kind::Put => "Put",
            Kind::Unhook => "Unhook",
            Kind::OscStart => "OSC_Start",
            Kind::OscPut => "OSC_Put",
            Kind::OscEnd => "OSC_End",
        }
    }
}

#[derive(Debug, Clone, Copy, PartialEq, Eq, Structural)]
pub enum State {
    Ground,
    Escape,
    EscapeIntermediate,
    CsiEntry,
    CsiParam,
    CsiIntermediate,
    CsiIgnore,
    DcsEntry,
    DcsParam,
    DcsIntermediate,
    DcsPassthrough,
    DcsIgnore,
    OscString,
    SosPmApcString,
}

impl Default for State {
    fn default() -> (s: Self)
        ensures
            s == State::Ground,
    {
        State::Ground
    }
}

/// An action to raise and, optionally, a state to move to.
pub struct Transition {
    pub kind: Kind,
    pub next: Option<State>,
}

/// Raise an action and stay put.
pub open spec fn staying(kind: Kind) -> Transition {
    Transition { kind, next: None }
}

/// Raise an action and move.
pub open spec fn moving(kind: Kind, next: State) -> Transition {
    Transition { kind, next: Some(next) }
}

/// Move without raising an action.
pub open spec fn going(next: State) -> Transition {
    Transition { kind: Kind::Ignore, next: Some(next) }
}

impl Transition {
    /// Raise an action and stay put.
    fn act(kind: Kind) -> (t: Self)
        ensures
            t == staying(kind),
    {
        Transition { kind, next: None }
    }

    /// Raise an action and move.
    fn act_to(kind: Kind, next: State) -> (t: Self)
        ensures
            t == moving(kind, next),
    {
        Transition { kind, next: Some(next) }
    }

    /// Move without raising an action.
    fn to(next: State) -> (t: Self)
        ensures
            t == going(next),
    {
        Transition { kind: Kind::Ignore, next: Some(next) }
    }

    /// Neither act nor move.
    fn nothing() -> (t: Self)
        ensures
            t == staying(Kind::Ignore),
    {
        Transition { kind: Kind::Ignore, next: None }
    }
}

/// The C0 controls that do not cancel a sequence.
pub open spec fn is_c0_prime(ch: u32) -> bool {
    ch <= 0x17 || ch == 0x19 || 0x1c <= ch <= 0x1f
}

/// The GL and GR areas.
pub open spec fn is_glgr(ch: u32) -> bool {
    0x20 <= ch <= 0x7f || 0xa0 <= ch <= 0xff
}

fn c0_prime(ch: u32) -> (b: bool)
    ensures
        b == is_c0_prime(ch),
{
    ch <= 0x17 || ch == 0x19 || (0x1c <= ch && ch <= 0x1f)
}

fn glgr(ch: u32) -> (b: bool)
    ensures
        b == is_glgr(ch),
{
    (0x20 <= ch && ch <= 0x7f)  // GL area
     || (0xa0 <= ch && ch <= 0xff)  // GR area

}

/// Transitions that apply from any state, checked before the per-state rules.
pub open spec fn from_anywhere(ch: u32) -> Option<Transition> {
    if ch == 0x18
        || ch == 0x1a
        || (0x80 <= ch && ch <= 0x8f)
        || (0x91 <= ch && ch <= 0x97)
        || ch == 0x99
        || ch == 0x9a
    {
        Some(moving(Kind::Execute, State::Ground))
    } else if ch == 0x9c {
        Some(going(State::Ground))
    } else if ch == 0x1b {
        Some(going(State::Escape))
    } else if ch == 0x98 || ch == 0x9e || ch == 0x9f {
        Some(going(State::SosPmApcString))
    } else if ch == 0x90 {
        Some(going(State::DcsEntry))
    } else if ch == 0x9d {
        Some(going(State::OscString))
    } else if ch == 0x9b {
        Some(going(State::CsiEntry))
    } else {
        None
    }
}


/// Transitions that apply from any state, checked before the per-state rules.
fn anywhere_rule(ch: u32) -> (t: Option<Transition>)
    ensures
        t == from_anywhere(ch),
{
    if ch == 0x18
        || ch == 0x1a
        || (0x80 <= ch && ch <= 0x8f)
        || (0x91 <= ch && ch <= 0x97)
        || ch == 0x99
        || ch == 0x9a
    {
        Some(Transition::act_to(Kind::Execute, State::Ground))
    } else if ch == 0x9c {
        Some(Transition::to(State::Ground))
    } else if ch == 0x1b {
        Some(Transition::to(State::Escape))
    } else if ch == 0x98 || ch == 0x9e || ch == 0x9f {
        Some(Transition::to(State::SosPmApcString))
    } else if ch == 0x90 {
        Some(Transition::to(State::DcsEntry))
    } else if ch == 0x9d {
        Some(Transition::to(State::OscString))
    } else if ch == 0x9b {
        Some(Transition::to(State::CsiEntry))
    } else {
        None
    }
}


impl State {
    /// The action raised on entering this state.
    pub open spec fn entering(self) -> Kind {
        match self {
            State::Escape | State::CsiEntry | State::DcsEntry => Kind::Clear,
            State::DcsPassthrough => Kind::Hook,
            State::OscString => Kind::OscStart,
            _ => Kind::Ignore,
        }
    }

    /// The action raised on leaving this state.
    pub open spec fn leaving(self) -> Kind {
        match self {
            State::DcsPassthrough => Kind::Unhook,
            State::OscString => Kind::OscEnd,
            _ => Kind::Ignore,
        }
    }

    /// What a character does in this state, unless it does the same in all of them.
    pub open spec fn state_rule(self, ch: u32) -> Transition {
        match self {
            State::Ground => {
                if is_c0_prime(ch) {
                    staying(Kind::Execute)
                } else if is_glgr(ch) {
                    staying(Kind::Print)
                } else {
                    staying(Kind::Ignore)
                }
            }
            State::Escape => {
                if is_c0_prime(ch) {
                    staying(Kind::Execute)
                } else if (0x20 <= ch && ch <= 0x2f) {
                    moving(Kind::Collect, State::EscapeIntermediate)
                } else if (0x30 <= ch && ch <= 0x4f)
                    || (0x51 <= ch && ch <= 0x57)
                    || ch == 0x59
                    || ch == 0x5a
                    || ch == 0x5c
                    || (0x60 <= ch && ch <= 0x7e)
                {
                    moving(Kind::EscDispatch, State::Ground)
                } else if ch == 0x5b {
                    going(State::CsiEntry)
                } else if ch == 0x5d {
                    going(State::OscString)
                } else if ch == 0x50 {
                    going(State::DcsEntry)
                } else if ch == 0x58 || ch == 0x5e || ch == 0x5f {
                    going(State::SosPmApcString)
                } else {
                    staying(Kind::Ignore)
                }
            }
            State::EscapeIntermediate => {
                if is_c0_prime(ch) {
                    staying(Kind::Execute)
                } else if (0x20 <= ch && ch <= 0x2f) {
                    staying(Kind::Collect)
                } else if (0x30 <= ch && ch <= 0x7e) {
                    moving(Kind::EscDispatch, State::Ground)
                } else {
                    staying(Kind::Ignore)
                }
            }
            State::CsiEntry => {
                if is_c0_prime(ch) {
                    staying(Kind::Execute)
                } else if (0x40 <= ch && ch <= 0x7e) {
                    moving(Kind::CsiDispatch, State::Ground)
                } else if (0x30 <= ch && ch <= 0x39) || ch == 0x3b {
                    moving(Kind::Param, State::CsiParam)
                } else if (0x3c <= ch && ch <= 0x3f) {
                    moving(Kind::Collect, State::CsiParam)
                } else if ch == 0x3a {
                    going(State::CsiIgnore)
                } else if (0x20 <= ch && ch <= 0x2f) {
                    moving(Kind::Collect, State::CsiIntermediate)
                } else {
                    staying(Kind::Ignore)
                }
            }
            State::CsiParam => {
                if is_c0_prime(ch) {
                    staying(Kind::Execute)
                } else if (0x30 <= ch && ch <= 0x39) || ch == 0x3b {
                    staying(Kind::Param)
                } else if ch == 0x3a || (0x3c <= ch && ch <= 0x3f) {
                    going(State::CsiIgnore)
                } else if (0x20 <= ch && ch <= 0x2f) {
                    moving(Kind::Collect, State::CsiIntermediate)
                } else if (0x40 <= ch && ch <= 0x7e) {
                    moving(Kind::CsiDispatch, State::Ground)
                } else {
                    staying(Kind::Ignore)
                }
            }
            State::CsiIntermediate => {
                if is_c0_prime(ch) {
                    staying(Kind::Execute)
                } else if (0x20 <= ch && ch <= 0x2f) {
                    staying(Kind::Collect)
                } else if (0x40 <= ch && ch <= 0x7e) {
                    moving(Kind::CsiDispatch, State::Ground)
                } else if (0x30 <= ch && ch <= 0x3f) {
                    going(State::CsiIgnore)
                } else {
                    staying(Kind::Ignore)
                }
            }
            State::CsiIgnore => {
                if is_c0_prime(ch) {
                    staying(Kind::Execute)
                } else if (0x40 <= ch && ch <= 0x7e) {
                    going(State::Ground)
                } else {
                    staying(Kind::Ignore)
                }
            }
            State::DcsEntry => {
                if (0x20 <= ch && ch <= 0x2f) {
                    moving(Kind::Collect, State::DcsIntermediate)
                } else if ch == 0x3a {
                    going(State::DcsIgnore)
                } else if (0x30 <= ch && ch <= 0x39) || ch == 0x3b {
                    moving(Kind::Param, State::DcsParam)
                } else if (0x3c <= ch && ch <= 0x3f) {
                    moving(Kind::Collect, State::DcsParam)
                } else if (0x40 <= ch && ch <= 0x7e) {
                    going(State::DcsPassthrough)
                } else {
                    staying(Kind::Ignore)
                }
            }
            State::DcsParam => {
                if (0x30 <= ch && ch <= 0x39) || ch == 0x3b {
                    staying(Kind::Param)
                } else if ch == 0x3a || (0x3c <= ch && ch <= 0x3f) {
                    going(State::DcsIgnore)
                } else if (0x20 <= ch && ch <= 0x2f) {
                    moving(Kind::Collect, State::DcsIntermediate)
                } else if (0x40 <= ch && ch <= 0x7e) {
                    going(State::DcsPassthrough)
                } else {
                    staying(Kind::Ignore)
                }
            }
            State::DcsIntermediate => {
                if (0x20 <= ch && ch <= 0x2f) {
                    staying(Kind::Collect)
                } else if (0x40 <= ch && ch <= 0x7e) {
                    going(State::DcsPassthrough)
                } else if (0x30 <= ch && ch <= 0x3f) {
                    going(State::DcsIgnore)
                } else {
                    staying(Kind::Ignore)
                }
            }
            State::DcsPassthrough => {
                if is_c0_prime(ch) || (0x20 <= ch && ch <= 0x7e) {
                    staying(Kind::Put)
                } else if ch == 0x9c {
                    going(State::Ground)
                } else {
                    staying(Kind::Ignore)
                }
            }
            State::DcsIgnore => {
                if ch == 0x9c {
                    going(State::Ground)
                } else {
                    staying(Kind::Ignore)
                }
            }
            State::OscString => {
                if (0x20 <= ch && ch <= 0x7f) {
                    staying(Kind::OscPut)
                } else if ch == 0x9c || ch == 0x07 {
                    going(State::Ground)
                } else {
                    staying(Kind::Ignore)
                }
            }
            State::SosPmApcString => {
                if ch == 0x9c {
                    going(State::Ground)
                } else {
                    staying(Kind::Ignore)
                }
            }
        }
    }

    /// What a character does in this state. Codepoints at or above 0xA0 are parsed as
    /// though they were 'A', so that any printable character drives the machine the same
    /// way.
    pub open spec fn rule(self, ch: char) -> Transition {
        let cp = ch as u32;
        match from_anywhere(cp) {
            Some(t) => t,
            None => self.state_rule(
                if cp >= 0xa0 {
                    0x41
                } else {
                    cp
                },
            ),
        }
    }

    /// The state after a character.
    #[verifier::opaque]
    pub open spec fn after(self, ch: char) -> State {
        match self.rule(ch).next {
            Some(s) => s,
            None => self,
        }
    }

    /// The actions a character raises, in order: leaving the state, the transition's own,
    /// and entering the next.
    #[verifier::opaque]
    pub open spec fn raised(self, ch: char) -> Seq<Action> {
        let t = self.rule(ch);
        match t.next {
            Some(next) => unless_ignored(self.leaving(), None) + unless_ignored(t.kind, Some(ch))
                + unless_ignored(next.entering(), None),
            None => unless_ignored(t.kind, Some(ch)),
        }
    }

    fn enter(self) -> (k: Kind)
        ensures
            k == self.entering(),
    {
        match self {
            State::Escape | State::CsiEntry | State::DcsEntry => Kind::Clear,
            State::DcsPassthrough => Kind::Hook,
            State::OscString => Kind::OscStart,
            _ => Kind::Ignore,
        }
    }

    fn exit(self) -> (k: Kind)
        ensures
            k == self.leaving(),
    {
        match self {
            State::DcsPassthrough => Kind::Unhook,
            State::OscString => Kind::OscEnd,
            _ => Kind::Ignore,
        }
    }

    fn input_state_rule(self, ch: u32) -> (t: Transition)
        ensures
            t == self.state_rule(ch),
    {
        match self {
            State::Ground => {
                if c0_prime(ch) {
                    Transition::act(Kind::Execute)
                } else if glgr(ch) {
                    Transition::act(Kind::Print)
                } else {
                    Transition::nothing()
                }
            }
            State::Escape => {
                if c0_prime(ch) {
                    Transition::act(Kind::Execute)
                } else if (0x20 <= ch && ch <= 0x2f) {
                    Transition::act_to(Kind::Collect, State::EscapeIntermediate)
                } else if (0x30 <= ch && ch <= 0x4f)
                    || (0x51 <= ch && ch <= 0x57)
                    || ch == 0x59
                    || ch == 0x5a
                    || ch == 0x5c
                    || (0x60 <= ch && ch <= 0x7e)
                {
                    Transition::act_to(Kind::EscDispatch, State::Ground)
                } else if ch == 0x5b {
                    Transition::to(State::CsiEntry)
                } else if ch == 0x5d {
                    Transition::to(State::OscString)
                } else if ch == 0x50 {
                    Transition::to(State::DcsEntry)
                } else if ch == 0x58 || ch == 0x5e || ch == 0x5f {
                    Transition::to(State::SosPmApcString)
                } else {
                    Transition::nothing()
                }
            }
            State::EscapeIntermediate => {
                if c0_prime(ch) {
                    Transition::act(Kind::Execute)
                } else if (0x20 <= ch && ch <= 0x2f) {
                    Transition::act(Kind::Collect)
                } else if (0x30 <= ch && ch <= 0x7e) {
                    Transition::act_to(Kind::EscDispatch, State::Ground)
                } else {
                    Transition::nothing()
                }
            }
            State::CsiEntry => {
                if c0_prime(ch) {
                    Transition::act(Kind::Execute)
                } else if (0x40 <= ch && ch <= 0x7e) {
                    Transition::act_to(Kind::CsiDispatch, State::Ground)
                } else if (0x30 <= ch && ch <= 0x39) || ch == 0x3b {
                    Transition::act_to(Kind::Param, State::CsiParam)
                } else if (0x3c <= ch && ch <= 0x3f) {
                    Transition::act_to(Kind::Collect, State::CsiParam)
                } else if ch == 0x3a {
                    Transition::to(State::CsiIgnore)
                } else if (0x20 <= ch && ch <= 0x2f) {
                    Transition::act_to(Kind::Collect, State::CsiIntermediate)
                } else {
                    Transition::nothing()
                }
            }
            State::CsiParam => {
                if c0_prime(ch) {
                    Transition::act(Kind::Execute)
                } else if (0x30 <= ch && ch <= 0x39) || ch == 0x3b {
                    Transition::act(Kind::Param)
                } else if ch == 0x3a || (0x3c <= ch && ch <= 0x3f) {
                    Transition::to(State::CsiIgnore)
                } else if (0x20 <= ch && ch <= 0x2f) {
                    Transition::act_to(Kind::Collect, State::CsiIntermediate)
                } else if (0x40 <= ch && ch <= 0x7e) {
                    Transition::act_to(Kind::CsiDispatch, State::Ground)
                } else {
                    Transition::nothing()
                }
            }
            State::CsiIntermediate => {
                if c0_prime(ch) {
                    Transition::act(Kind::Execute)
                } else if (0x20 <= ch && ch <= 0x2f) {
                    Transition::act(Kind::Collect)
                } else if (0x40 <= ch && ch <= 0x7e) {
                    Transition::act_to(Kind::CsiDispatch, State::Ground)
                } else if (0x30 <= ch && ch <= 0x3f) {
                    Transition::to(State::CsiIgnore)
                } else {
                    Transition::nothing()
                }
            }
            State::CsiIgnore => {
                if c0_prime(ch) {
                    Transition::act(Kind::Execute)
                } else if (0x40 <= ch && ch <= 0x7e) {
                    Transition::to(State::Ground)
                } else {
                    Transition::nothing()
                }
            }
            State::DcsEntry => {
                if (0x20 <= ch && ch <= 0x2f) {
                    Transition::act_to(Kind::Collect, State::DcsIntermediate)
                } else if ch == 0x3a {
                    Transition::to(State::DcsIgnore)
                } else if (0x30 <= ch && ch <= 0x39) || ch == 0x3b {
                    Transition::act_to(Kind::Param, State::DcsParam)
                } else if (0x3c <= ch && ch <= 0x3f) {
                    Transition::act_to(Kind::Collect, State::DcsParam)
                } else if (0x40 <= ch && ch <= 0x7e) {
                    Transition::to(State::DcsPassthrough)
                } else {
                    Transition::nothing()
                }
            }
            State::DcsParam => {
                if (0x30 <= ch && ch <= 0x39) || ch == 0x3b {
                    Transition::act(Kind::Param)
                } else if ch == 0x3a || (0x3c <= ch && ch <= 0x3f) {
                    Transition::to(State::DcsIgnore)
                } else if (0x20 <= ch && ch <= 0x2f) {
                    Transition::act_to(Kind::Collect, State::DcsIntermediate)
                } else if (0x40 <= ch && ch <= 0x7e) {
                    Transition::to(State::DcsPassthrough)
                } else {
                    Transition::nothing()
                }
            }
            State::DcsIntermediate => {
                if (0x20 <= ch && ch <= 0x2f) {
                    Transition::act(Kind::Collect)
                } else if (0x40 <= ch && ch <= 0x7e) {
                    Transition::to(State::DcsPassthrough)
                } else if (0x30 <= ch && ch <= 0x3f) {
                    Transition::to(State::DcsIgnore)
                } else {
                    Transition::nothing()
                }
            }
            State::DcsPassthrough => {
                if c0_prime(ch) || (0x20 <= ch && ch <= 0x7e) {
                    Transition::act(Kind::Put)
                } else if ch == 0x9c {
                    Transition::to(State::Ground)
                } else {
                    Transition::nothing()
                }
            }
            State::DcsIgnore => {
                if ch == 0x9c {
                    Transition::to(State::Ground)
                } else {
                    Transition::nothing()
                }
            }
            State::OscString => {
                if (0x20 <= ch && ch <= 0x7f) {
                    Transition::act(Kind::OscPut)
                } else if ch == 0x9c || ch == 0x07 {
                    // 0x07 is the xterm non-ANSI variant of the terminator.
                    Transition::to(State::Ground)
                } else {
                    Transition::nothing()
                }
            }
            State::SosPmApcString => {
                if ch == 0x9c {
                    Transition::to(State::Ground)
                } else {
                    Transition::nothing()
                }
            }
        }
    }

    fn input(self, ch: char) -> (t: Transition)
        ensures
            t == self.rule(ch),
    {
        let cp: u32 = ch as u32;
        match anywhere_rule(cp) {
            Some(anywhere) => anywhere,
            None => self.input_state_rule(
                if cp >= 0xa0 {
                    0x41
                } else {
                    cp
                },
            ),
        }
    }
}

/// The action, unless it is to be ignored.
pub open spec fn unless_ignored(kind: Kind, ch: Option<char>) -> Seq<Action> {
    if kind == Kind::Ignore {
        Seq::empty()
    } else {
        seq![Action { kind, ch }]
    }
}

fn push_unless_ignore(out: &mut Vec<Action>, kind: Kind, ch: Option<char>)
    ensures
        final(out)@ == old(out)@ + unless_ignored(kind, ch),
{
    if kind != Kind::Ignore {
        out.push(Action { kind, ch });
    }
    assert(out@ =~= old(out)@ + unless_ignored(kind, ch));
}

/// The escape-sequence state machine over decoded characters.
#[derive(Debug, Clone, Copy)]
pub struct Parser {
    state: State,
}

impl View for Parser {
    type V = State;

    closed spec fn view(&self) -> State {
        self.state
    }
}

impl Default for Parser {
    fn default() -> (p: Self)
        ensures
            p@ == State::Ground,
    {
        Parser { state: State::Ground }
    }
}

impl Parser {
    pub fn new() -> (p: Self)
        ensures
            p@ == State::Ground,
    {
        Parser::default()
    }

    pub fn state(&self) -> (s: State)
        ensures
            s == self@,
    {
        self.state
    }

    /// Feed one character, appending whatever actions it raises.
    pub fn input(&mut self, ch: char, out: &mut Vec<Action>)
        ensures
            final(self)@ == old(self)@.after(ch),
            final(out)@ == old(out)@ + old(self)@.raised(ch),
    {
        reveal(State::after);
        reveal(State::raised);
        let tx = self.state.input(ch);
        // Leaving a state raises its exit action before the transition's own action.
        if tx.next.is_some() {
            push_unless_ignore(out, self.state.exit(), None);
        }
        push_unless_ignore(out, tx.kind, Some(ch));
        if let Some(next) = tx.next {
            push_unless_ignore(out, next.enter(), None);
            self.state = next;
        }
        assert(out@ =~= old(out)@ + old(self)@.raised(ch));
    }
}

/// Largest number of bytes we will hold while waiting for a character to complete.
pub const BUF_SIZE: usize = 8;

/// The state of the machine and the bytes of a character that is not complete yet.
pub struct ParserView {
    pub state: State,
    pub buf: Seq<u8>,
}

/// Where the parser has come to, and the actions raised on the way.
pub struct Fed {
    pub state: State,
    pub buf: Seq<u8>,
    pub raised: Seq<Action>,
}

impl Fed {
    /// After one more character, with `rest` still to be decoded.
    pub open spec fn then_char(self, ch: char, rest: Seq<u8>) -> Fed {
        Fed {
            state: self.state.after(ch),
            buf: rest,
            raised: self.raised + self.state.raised(ch),
        }
    }

    /// After every character in the buffer that can be decoded. A bad sequence becomes a
    /// replacement character and is retried from its last byte, which may begin a valid
    /// one. `left` bounds how many bytes are still to be taken.
    pub open spec fn drained(self, left: int) -> Fed
        decreases if left < 0 { 0 } else { left },
    {
        if left <= 0 {
            self
        } else {
            match decoding(self.buf) {
                Decoded::Nul => self.then_char('\0', Seq::empty()).drained(left - 1),
                Decoded::Invalid => if self.buf.len() > 1 {
                    self.then_char('\u{fffd}', seq![self.buf.last()]).drained(
                        left - (self.buf.len() - 1),
                    )
                } else {
                    self.then_char('\u{fffd}', Seq::empty()).drained(left - 1)
                },
                Decoded::Incomplete => self,
                Decoded::Char(ch, n) => if n > 0 {
                    self.then_char(ch, self.buf.skip(n as int)).drained(left - n)
                } else {
                    self
                },
            }
        }
    }
}

impl ParserView {
    /// Fewer bytes are held back than would make a character too long to be valid.
    pub open spec fn valid(self) -> bool {
        self.buf.len() < BUF_SIZE
    }

    /// After one more byte, with the actions it raises.
    #[verifier::opaque]
    pub open spec fn fed(self, c: u8) -> Fed {
        if self.buf.len() == 0 && c <= 0x7f {
            Fed {
                state: self.state.after(c as char),
                buf: self.buf,
                raised: self.state.raised(c as char),
            }
        } else {
            let f = Fed {
                state: self.state,
                buf: self.buf.push(c),
                raised: Seq::empty(),
            }.drained(self.buf.len() + 1int);
            if f.buf.len() >= BUF_SIZE {
                Fed { buf: Seq::empty(), ..f }
            } else {
                f
            }
        }
    }
}

/// Decodes bytes into characters, then drives the state machine.
///
/// Follows Unicode 6.0 section 3.9 on replacement characters, which is why a bad
/// sequence is retried from its last byte rather than discarded whole.
#[derive(Debug)]
pub struct Utf8Parser {
    parser: Parser,
    buf: Vec<u8>,
}

impl View for Utf8Parser {
    type V = ParserView;

    closed spec fn view(&self) -> ParserView {
        ParserView { state: self.parser@, buf: self.buf@ }
    }
}

impl Clone for Utf8Parser {
    fn clone(&self) -> (res: Self)
        ensures
            res@ == self@,
    {
        let buf = self.buf.clone();
        assert(buf@ =~= self.buf@);
        Utf8Parser { parser: self.parser, buf }
    }
}

impl Default for Utf8Parser {
    fn default() -> (p: Self)
        ensures
            p@ == (ParserView { state: State::Ground, buf: Seq::empty() }),
    {
        Utf8Parser { parser: Parser::new(), buf: Vec::new() }
    }
}

impl Utf8Parser {
    pub fn new() -> (p: Self)
        ensures
            p@ == (ParserView { state: State::Ground, buf: Seq::empty() }),
            p@.valid(),
    {
        Self::default()
    }

    pub fn state(&self) -> (s: State)
        ensures
            s == self@.state,
    {
        self.parser.state()
    }

    /// How many bytes are held back.
    pub fn pending(&self) -> (n: usize)
        ensures
            n == self@.buf.len(),
    {
        self.buf.len()
    }

    /// Feed one byte, appending whatever actions it raises.
    pub fn input(&mut self, c: u8, out: &mut Vec<Action>)
        requires
            old(self)@.valid(),
        ensures
            final(self)@.state == old(self)@.fed(c).state,
            final(self)@.buf == old(self)@.fed(c).buf,
            final(out)@ == old(out)@ + old(self)@.fed(c).raised,
            final(self)@.valid(),
    {
        reveal(ParserView::fed);
        // Single-byte character? Skip the decoder entirely.
        if self.buf.len() == 0 && c <= 0x7f {
            self.parser.input(c as char, out);
            return ;
        }
        self.buf.push(c);
        let mut decoder = MbDecoder::new();
        let orig_len: usize = self.buf.len();
        let ghost start = Fed { state: self@.state, buf: self@.buf, raised: Seq::empty() };
        let ghost mut now = start;
        let mut left: usize = orig_len;
        assert(out@ =~= old(out)@ + now.raised);
        while left != 0
            invariant_except_break
                decoder@.len() == 0,
                decoder.well_formed(),
            invariant
                self@.state == now.state,
                self@.buf == now.buf,
                out@ == old(out)@ + now.raised,
                start.drained(orig_len as int) == now.drained(left as int),
                self.buf@.len() <= left <= orig_len <= BUF_SIZE,
            ensures
                start.drained(orig_len as int) == now,
            decreases left,
        {
            let ch: char;
            let parsed: usize;
            assert(decoder@ + self.buf@ =~= self.buf@);
            match decoder.decode(self.buf.as_slice()) {
                Decoded::Nul => {
                    self.buf = Vec::new();
                    ch = '\0';
                    parsed = 1;
                },
                Decoded::Invalid => {
                    // Keep the final byte and retry from it; it may begin a valid
                    // sequence even though what preceded it did not.
                    let n: usize = self.buf.len();
                    if n > 1 {
                        let last = self.buf[n - 1];
                        self.buf = vec![last];
                        assert(self.buf@ =~= seq![last]);
                        parsed = n - 1;
                    } else {
                        self.buf = Vec::new();
                        parsed = 1;
                    }
                    ch = '\u{fffd}';
                },
                Decoded::Incomplete => {
                    // Wait for more bytes rather than guessing.
                    break ;
                },
                Decoded::Char(c, n) => {
                    let rest = self.buf.split_off(n);
                    assert(rest@ =~= now.buf.skip(n as int));
                    self.buf = rest;
                    ch = c;
                    parsed = n;
                },
            }
            proof {
                now = now.then_char(ch, self.buf@);
            }
            self.parser.input(ch, out);
            left = left - parsed;
            assert(out@ =~= old(out)@ + now.raised);
        }
        // A sequence longer than any valid character means the input is malformed;
        // drop it rather than growing without bound.
        if self.buf.len() >= BUF_SIZE {
            self.buf = Vec::new();
        }
    }
}

} // verus!
