//! Cells: what one position of the screen holds and how it is drawn.

use std::rc::Rc;

use vstd::prelude::*;
use vstd::string::*;
use vstd::utf8::*;

use crate::text::{decimal, hex_digit, push_decimal, push_hex_byte, text_eq};

verus! {

pub type ColorType = u32;

/// Set in a color value to mark it as 24-bit rather than a palette index.
pub const TRUE_COLOR_MASK: u32 = 0x1000000;

#[derive(Debug, Clone, Copy, PartialEq, Eq, Structural)]
pub enum Attribute {
    Bold,
    Faint,
    Italic,
    Underlined,
    Blink,
    Inverse,
    Invisible,
    Strikethrough,
}

impl Attribute {
    /// The bit that stands for this attribute.
    pub open spec fn mask(self) -> u8 {
        match self {
            Attribute::Bold => 1u8,
            Attribute::Faint => 2u8,
            Attribute::Italic => 4u8,
            Attribute::Underlined => 8u8,
            Attribute::Blink => 16u8,
            Attribute::Inverse => 32u8,
            Attribute::Invisible => 64u8,
            Attribute::Strikethrough => 128u8,
        }
    }

    fn bit(self) -> (b: u8)
        ensures
            b == self.mask(),
    {
        match self {
            Attribute::Bold => 1,
            Attribute::Faint => 2,
            Attribute::Italic => 4,
            Attribute::Underlined => 8,
            Attribute::Blink => 16,
            Attribute::Inverse => 32,
            Attribute::Invisible => 64,
            Attribute::Strikethrough => 128,
        }
    }
}

/// Colour and attributes for one cell.
#[derive(Debug, Clone, Copy, PartialEq, Eq, Structural)]
pub struct Renditions {
    pub foreground_color: ColorType,
    pub background_color: ColorType,
    pub attributes: u8,
}

/// Is `color` a 24-bit colour?
pub open spec fn true_color(color: u32) -> bool {
    color & TRUE_COLOR_MASK != 0
}

/// `;` and `code`, when the attribute is on.
pub open spec fn attribute_code(on: bool, code: char) -> Seq<char> {
    if on {
        seq![';', code]
    } else {
        Seq::empty()
    }
}

/// The SGR parameters that select `c`, where `base` is 30 for the foreground and 40 for
/// the background. Zero is the default colour and needs no parameter.
pub open spec fn color_code(c: u32, base: u32) -> Seq<char> {
    if c == 0 {
        Seq::empty()
    } else if true_color(c) {
        seq![';'] + decimal((base + 8) as nat) + seq![';', '2', ';'] + decimal(
            ((c >> 16) & 0xff) as nat,
        ) + seq![';'] + decimal(((c >> 8) & 0xff) as nat) + seq![';'] + decimal((c & 0xff) as nat)
    } else if c > base + 7 {
        seq![';'] + decimal((base + 8) as nat) + seq![';', '5', ';'] + decimal((c - base) as nat)
    } else {
        seq![';'] + decimal(c as nat)
    }
}

impl Renditions {
    /// Default colours on `background`, with no attribute set.
    pub open spec fn plain(background: ColorType) -> Renditions {
        Renditions { foreground_color: 0, background_color: background, attributes: 0 }
    }

    /// Is the attribute on?
    pub open spec fn has(self, attr: Attribute) -> bool {
        self.attributes & attr.mask() != 0
    }

    /// The same with one attribute switched on or off.
    pub open spec fn with_attribute(self, attr: Attribute, val: bool) -> Renditions {
        Renditions {
            attributes: if val {
                self.attributes | attr.mask()
            } else {
                self.attributes & !attr.mask()
            },
            ..self
        }
    }

    /// The same with palette colour or 24-bit colour `num` in front. Any other number
    /// changes nothing.
    pub open spec fn with_foreground(self, num: i32) -> Renditions {
        if 0 <= num <= 255 {
            Renditions { foreground_color: (30 + num) as u32, ..self }
        } else if num >= 0 && true_color(num as u32) {
            Renditions { foreground_color: num as u32, ..self }
        } else {
            self
        }
    }

    /// The same with palette colour or 24-bit colour `num` behind. Any other number
    /// changes nothing.
    pub open spec fn with_background(self, num: i32) -> Renditions {
        if 0 <= num <= 255 {
            Renditions { background_color: (40 + num) as u32, ..self }
        } else if num >= 0 && true_color(num as u32) {
            Renditions { background_color: num as u32, ..self }
        } else {
            self
        }
    }

    /// The renditions after SGR parameter `num`.
    pub open spec fn with_rendition(self, num: ColorType) -> Renditions {
        if num == 0 {
            Renditions::plain(0)
        } else if num == 39 {
            Renditions { foreground_color: 0, ..self }
        } else if num == 49 {
            Renditions { background_color: 0, ..self }
        } else if 30 <= num <= 37 {
            Renditions { foreground_color: num, ..self }
        } else if 40 <= num <= 47 {
            Renditions { background_color: num, ..self }
        } else if 90 <= num <= 97 {
            Renditions { foreground_color: (num - 90 + 38) as u32, ..self }
        } else if 100 <= num <= 107 {
            Renditions { background_color: (num - 100 + 48) as u32, ..self }
        } else if num == 1 {
            self.with_attribute(Attribute::Bold, true)
        } else if num == 2 {
            self.with_attribute(Attribute::Faint, true)
        } else if num == 22 {
            self.with_attribute(Attribute::Bold, false).with_attribute(Attribute::Faint, false)
        } else if num == 3 || num == 23 {
            self.with_attribute(Attribute::Italic, num == 3)
        } else if num == 4 || num == 24 {
            self.with_attribute(Attribute::Underlined, num == 4)
        } else if num == 5 || num == 25 {
            self.with_attribute(Attribute::Blink, num == 5)
        } else if num == 7 || num == 27 {
            self.with_attribute(Attribute::Inverse, num == 7)
        } else if num == 8 || num == 28 {
            self.with_attribute(Attribute::Invisible, num == 8)
        } else if num == 9 || num == 29 {
            self.with_attribute(Attribute::Strikethrough, num == 9)
        } else {
            self
        }
    }

    /// The escape sequence that puts a terminal into these renditions: a reset, the
    /// attributes that are on in ascending order, and the colours.
    pub open spec fn sgr_text(self) -> Seq<char> {
        seq!['\x1b', '[', '0'] + attribute_code(self.has(Attribute::Bold), '1') + attribute_code(
            self.has(Attribute::Faint),
            '2',
        ) + attribute_code(self.has(Attribute::Italic), '3') + attribute_code(
            self.has(Attribute::Underlined),
            '4',
        ) + attribute_code(self.has(Attribute::Blink), '5') + attribute_code(
            self.has(Attribute::Inverse),
            '7',
        ) + attribute_code(self.has(Attribute::Invisible), '8') + attribute_code(
            self.has(Attribute::Strikethrough),
            '9',
        ) + color_code(self.foreground_color, 30) + color_code(self.background_color, 40) + seq![
            'm',
        ]
    }

    pub fn new(background: ColorType) -> (r: Self)
        ensures
            r == Renditions::plain(background),
    {
        Renditions { foreground_color: 0, background_color: background, attributes: 0 }
    }

    pub fn make_true_color(r: u32, g: u32, b: u32) -> (c: ColorType)
        ensures
            c == TRUE_COLOR_MASK | (r << 16) | (g << 8) | b,
    {
        TRUE_COLOR_MASK | (r << 16) | (g << 8) | b
    }

    pub fn is_true_color(color: ColorType) -> (b: bool)
        ensures
            b == true_color(color),
    {
        color & TRUE_COLOR_MASK != 0
    }

    pub fn background_rendition(&self) -> (c: ColorType)
        ensures
            c == self.background_color,
    {
        self.background_color
    }

    pub fn set_attribute(&mut self, attr: Attribute, val: bool)
        ensures
            *final(self) == old(self).with_attribute(attr, val),
    {
        if val {
            self.attributes = self.attributes | attr.bit();
        } else {
            self.attributes = self.attributes & !attr.bit();
        }
    }

    pub fn attribute(&self, attr: Attribute) -> (b: bool)
        ensures
            b == self.has(attr),
    {
        self.attributes & attr.bit() != 0
    }

    pub fn clear_attributes(&mut self)
        ensures
            *final(self) == (Renditions { attributes: 0, ..*old(self) }),
    {
        self.attributes = 0;
    }

    pub fn set_foreground_color(&mut self, num: i32)
        ensures
            *final(self) == old(self).with_foreground(num),
    {
        if 0 <= num && num <= 255 {
            self.foreground_color = 30 + num as ColorType;
        } else if num >= 0 && Self::is_true_color(num as ColorType) {
            self.foreground_color = num as ColorType;
        }
    }

    pub fn set_background_color(&mut self, num: i32)
        ensures
            *final(self) == old(self).with_background(num),
    {
        if 0 <= num && num <= 255 {
            self.background_color = 40 + num as ColorType;
        } else if num >= 0 && Self::is_true_color(num as ColorType) {
            self.background_color = num as ColorType;
        }
    }

    /// Apply one SGR parameter. Cannot set colours beyond the 16-colour set; those
    /// arrive through `set_foreground_color`/`set_background_color`.
    pub fn set_rendition(&mut self, num: ColorType)
        ensures
            *final(self) == old(self).with_rendition(num),
    {
        if num == 0 {
            self.clear_attributes();
            self.foreground_color = 0;
            self.background_color = 0;
            return;
        }
        if num == 39 {
            self.foreground_color = 0;
            return;
        } else if num == 49 {
            self.background_color = 0;
            return;
        }
        if 30 <= num && num <= 37 {
            self.foreground_color = num;
            return;
        } else if 40 <= num && num <= 47 {
            self.background_color = num;
            return;
        } else if 90 <= num && num <= 97 {
            self.foreground_color = num - 90 + 38;
            return;
        } else if 100 <= num && num <= 107 {
            self.background_color = num - 100 + 48;
            return;
        }
        let value = num < 10;
        match num {
            1 => self.set_attribute(Attribute::Bold, value),
            2 => self.set_attribute(Attribute::Faint, value),
            22 => {
                self.set_attribute(Attribute::Bold, value);
                self.set_attribute(Attribute::Faint, value);
            },
            3 | 23 => self.set_attribute(Attribute::Italic, value),
            4 | 24 => self.set_attribute(Attribute::Underlined, value),
            5 | 25 => self.set_attribute(Attribute::Blink, value),
            7 | 27 => self.set_attribute(Attribute::Inverse, value),
            8 | 28 => self.set_attribute(Attribute::Invisible, value),
            9 | 29 => self.set_attribute(Attribute::Strikethrough, value),
            _ => {},  // ignore unknown rendition
        }
    }

    /// The escape sequence that puts a terminal into these renditions.
    ///
    /// Goes to the user's real terminal, so the exact spelling is observable.
    pub fn sgr(&self) -> (s: String)
        ensures
            s@ == self.sgr_text(),
    {
        let mut ret = String::new();
        ret.push('\x1b');
        ret.push('[');
        ret.push('0');
        assert(ret@ =~= seq!['\x1b', '[', '0']);
        push_attribute(&mut ret, self.attribute(Attribute::Bold), '1');
        push_attribute(&mut ret, self.attribute(Attribute::Faint), '2');
        push_attribute(&mut ret, self.attribute(Attribute::Italic), '3');
        push_attribute(&mut ret, self.attribute(Attribute::Underlined), '4');
        push_attribute(&mut ret, self.attribute(Attribute::Blink), '5');
        push_attribute(&mut ret, self.attribute(Attribute::Inverse), '7');
        push_attribute(&mut ret, self.attribute(Attribute::Invisible), '8');
        push_attribute(&mut ret, self.attribute(Attribute::Strikethrough), '9');
        push_color(&mut ret, self.foreground_color, 30);
        push_color(&mut ret, self.background_color, 40);
        let ghost body = ret@;
        ret.push('m');
        assert(body.push('m') =~= body + seq!['m']);
        ret
    }
}

fn push_attribute(out: &mut String, on: bool, code: char)
    ensures
        final(out)@ == old(out)@ + attribute_code(on, code),
{
    if on {
        out.push(';');
        out.push(code);
    }
    assert(out@ =~= old(out)@ + attribute_code(on, code));
}

fn push_color(out: &mut String, c: ColorType, base: u32)
    requires
        base == 30 || base == 40,
    ensures
        final(out)@ == old(out)@ + color_code(c, base),
{
    if c != 0 {
        out.push(';');
        if Renditions::is_true_color(c) {
            push_decimal(out, (base + 8) as u64);
            out.push(';');
            out.push('2');
            out.push(';');
            push_decimal(out, ((c >> 16) & 0xff) as u64);
            out.push(';');
            push_decimal(out, ((c >> 8) & 0xff) as u64);
            out.push(';');
            push_decimal(out, (c & 0xff) as u64);
        } else if c > base + 7 {
            push_decimal(out, (base + 8) as u64);
            out.push(';');
            out.push('5');
            out.push(';');
            push_decimal(out, (c - base) as u64);
        } else {
            push_decimal(out, c as u64);
        }
    }
    assert(out@ =~= old(out)@ + color_code(c, base));
}

/// `set_attribute` and `attribute` agree: the attribute that was set reads back, and every
/// other attribute is left alone.
pub proof fn set_attribute_is_read_back(r: Renditions, attr: Attribute, val: bool, other: Attribute)
    ensures
        r.with_attribute(attr, val).has(attr) == val,
        other != attr ==> r.with_attribute(attr, val).has(other) == r.has(other),
{
    let a = r.attributes;
    let m = attr.mask();
    let n = other.mask();
    assert((a | m) & m == m) by (bit_vector);
    assert((a & !m) & m == 0) by (bit_vector);
    if other != attr {
        assert(m & n == 0) by {
            assert(forall|p: u8, q: u8|
                p != q && (p == 1 || p == 2 || p == 4 || p == 8 || p == 16 || p == 32 || p == 64
                    || p == 128) && (q == 1 || q == 2 || q == 4 || q == 8 || q == 16 || q == 32 || q
                    == 64 || q == 128) ==> p & q == 0) by (bit_vector);
        }
        assert((a | m) & n == a & n) by (bit_vector)
            requires
                m & n == 0,
        ;
        assert((a & !m) & n == a & n) by (bit_vector)
            requires
                m & n == 0,
        ;
    }
}

/// A hyperlink: its parameters and its target.
#[verifier::ext_equal]
pub struct Link {
    pub params: Seq<char>,
    pub url: Seq<char>,
}

/// The escape sequence that opens `link`, or closes the open one.
pub open spec fn osc8_text(link: Option<Link>) -> Seq<char> {
    match link {
        Some(l) => seq!['\x1b', ']', '8', ';'] + l.params + seq![';'] + l.url + seq!['\x1b', '\\'],
        None => seq!['\x1b', ']', '8', ';', ';', '\x1b', '\\'],
    }
}

#[derive(Debug)]
struct HyperlinkRep {
    params: String,
    url: String,
}

/// An OSC 8 hyperlink attached to a cell. Shared between cells of the same link.
#[derive(Debug)]
pub struct Hyperlink {
    rep: Option<Rc<HyperlinkRep>>,
}

impl View for Hyperlink {
    type V = Option<Link>;

    closed spec fn view(&self) -> Option<Link> {
        match self.rep {
            Some(rep) => Some(Link { params: rep.params@, url: rep.url@ }),
            None => None,
        }
    }
}

/// `Rc::clone` makes another pointer to the same value.
#[verifier::external_body]
pub(crate) fn share<T>(r: &Rc<T>) -> (s: Rc<T>)
    ensures
        s == *r,
{
    Rc::clone(r)
}

/// `Rc::ptr_eq` holds only of pointers to one allocation, whose value is then the same
/// for both. Whether two pointers share an allocation is not stated.
#[verifier::external_body]
pub(crate) fn same_allocation<T>(a: &Rc<T>, b: &Rc<T>) -> (r: bool)
    ensures
        r ==> a == b,
{
    Rc::ptr_eq(a, b)
}

impl Clone for Hyperlink {
    fn clone(&self) -> (res: Self)
        ensures
            res@ == self@,
    {
        match &self.rep {
            Some(rep) => Hyperlink { rep: Some(share(rep)) },
            None => Hyperlink { rep: None },
        }
    }
}

impl Default for Hyperlink {
    fn default() -> (res: Self)
        ensures
            res@ == None::<Link>,
    {
        Hyperlink { rep: None }
    }
}

impl Hyperlink {
    pub fn new(params: String, url: String) -> (res: Self)
        ensures
            res@ == if url@.len() == 0 {
                None
            } else {
                Some(Link { params: params@, url: url@ })
            },
    {
        // An empty URL means "no link", which is how a link is closed.
        if url.as_str().is_empty() {
            Hyperlink { rep: None }
        } else {
            Hyperlink { rep: Some(Rc::new(HyperlinkRep { params, url })) }
        }
    }

    pub fn is_empty(&self) -> (b: bool)
        ensures
            b == (self@ is None),
    {
        self.rep.is_none()
    }

    /// The escape sequence that opens (or closes) this link.
    pub fn osc8(&self) -> (s: String)
        ensures
            s@ == osc8_text(self@),
    {
        let mut ret = String::new();
        ret.push('\x1b');
        ret.push(']');
        ret.push('8');
        ret.push(';');
        match &self.rep {
            Some(rep) => {
                ret.append(rep.params.as_str());
                ret.push(';');
                ret.append(rep.url.as_str());
            },
            None => {
                ret.push(';');
            },
        }
        ret.push('\x1b');
        ret.push('\\');
        assert(ret@ =~= osc8_text(self@));
        ret
    }
}

impl PartialEq for Hyperlink {
    fn eq(&self, other: &Self) -> (r: bool) {
        match (&self.rep, &other.rep) {
            (Some(a), Some(b)) => {
                // Same allocation is the common case and needs no comparison.
                same_allocation(a, b) || (text_eq(a.params.as_str(), b.params.as_str()) && text_eq(
                    a.url.as_str(),
                    b.url.as_str(),
                ))
            },
            (None, None) => true,
            _ => false,
        }
    }
}

impl vstd::std_specs::cmp::PartialEqSpecImpl for Hyperlink {
    open spec fn obeys_eq_spec() -> bool {
        true
    }

    open spec fn eq_spec(&self, other: &Self) -> bool {
        self@ == other@
    }
}

impl Eq for Hyperlink {

}

/// A limit on combining characters, so one cell cannot grow without bound.
pub const MAX_CELL_BYTES: usize = 32;

/// What a cell holds.
#[verifier::ext_equal]
pub struct CellView {
    pub contents: Seq<char>,
    pub renditions: Renditions,
    pub hyperlink: Option<Link>,
    pub wide: bool,
    pub fallback: bool,
    pub wrap: bool,
}

impl CellView {
    /// An empty cell on the given background.
    pub open spec fn blank(background_color: ColorType) -> CellView {
        CellView {
            contents: Seq::empty(),
            renditions: Renditions::plain(background_color),
            hyperlink: None,
            wide: false,
            fallback: false,
            wrap: false,
        }
    }

    /// Has the contents reached the limit on their encoded length?
    pub open spec fn full(self) -> bool {
        encode_utf8(self.contents).len() >= MAX_CELL_BYTES
    }

    /// Does the cell look empty: no contents, a space or a no-break space?
    pub open spec fn looks_blank(self) -> bool {
        self.contents == Seq::<char>::empty() || self.contents == seq![' '] || self.contents
            == seq!['\u{a0}']
    }

    /// What the cell displays, as it should be sent to a terminal.
    pub open spec fn grapheme(self) -> Seq<char> {
        if self.contents.len() == 0 {
            seq![' ']
        } else if self.fallback {
            seq!['\u{a0}'] + self.contents
        } else {
            self.contents
        }
    }

    /// How many columns the cell covers.
    pub open spec fn columns(self) -> int {
        if self.wide {
            2
        } else {
            1
        }
    }

    /// The cell with one more character in it.
    pub open spec fn appended(self, c: char) -> CellView {
        CellView { contents: self.contents.push(c), ..self }
    }
}

/// `0x` and two digits for each byte, with `, ` between them.
pub open spec fn hex_list(bytes: Seq<u8>) -> Seq<char>
    decreases bytes.len(),
{
    if bytes.len() == 0 {
        Seq::empty()
    } else {
        let b = bytes.last() as int;
        let item = seq!['0', 'x', hex_digit(b / 16), hex_digit(b % 16)];
        if bytes.len() == 1 {
            item
        } else {
            hex_list(bytes.drop_last()) + seq![',', ' '] + item
        }
    }
}

/// What a cell prints in a report of differences.
pub open spec fn cell_report(c: CellView) -> Seq<char> {
    if c.contents.len() == 0 {
        seq!['\'', '_', '\'', ' ', '(', ')']
    } else {
        seq!['\''] + c.grapheme() + seq!['\'', ' ', '['] + hex_list(encode_utf8(c.contents))
            + seq![']']
    }
}

/// One addressable position on the screen.
#[derive(Debug)]
pub struct Cell {
    contents: String,
    renditions: Renditions,
    hyperlink: Hyperlink,
    wide: bool,
    /// The cell begins with a combining character, so it is drawn on a no-break space.
    fallback: bool,
    wrap: bool,
}

impl View for Cell {
    type V = CellView;

    closed spec fn view(&self) -> CellView {
        CellView {
            contents: self.contents@,
            renditions: self.renditions,
            hyperlink: self.hyperlink@,
            wide: self.wide,
            fallback: self.fallback,
            wrap: self.wrap,
        }
    }
}

impl Clone for Cell {
    fn clone(&self) -> (res: Self)
        ensures
            res@ == self@,
    {
        Cell {
            contents: self.contents.clone(),
            renditions: self.renditions,
            hyperlink: self.hyperlink.clone(),
            wide: self.wide,
            fallback: self.fallback,
            wrap: self.wrap,
        }
    }
}

impl PartialEq for Cell {
    fn eq(&self, other: &Self) -> (r: bool) {
        text_eq(self.contents.as_str(), other.contents.as_str()) && self.renditions
            == other.renditions && self.hyperlink == other.hyperlink && self.wide == other.wide
            && self.fallback == other.fallback && self.wrap == other.wrap
    }
}

impl vstd::std_specs::cmp::PartialEqSpecImpl for Cell {
    open spec fn obeys_eq_spec() -> bool {
        true
    }

    open spec fn eq_spec(&self, other: &Self) -> bool {
        self@ == other@
    }
}

impl Eq for Cell {

}

impl Cell {
    pub fn new(background_color: ColorType) -> (res: Self)
        ensures
            res@ == CellView::blank(background_color),
    {
        Cell {
            contents: String::new(),
            renditions: Renditions::new(background_color),
            hyperlink: Hyperlink::default(),
            wide: false,
            fallback: false,
            wrap: false,
        }
    }

    pub fn reset(&mut self, background_color: ColorType)
        ensures
            final(self)@ == CellView::blank(background_color),
    {
        self.contents = String::new();
        self.renditions = Renditions::new(background_color);
        self.hyperlink = Hyperlink::default();
        self.wide = false;
        self.fallback = false;
        self.wrap = false;
    }

    pub fn is_empty(&self) -> (b: bool)
        ensures
            b == (self@.contents.len() == 0),
    {
        self.contents.as_str().is_empty()
    }

    pub fn is_full(&self) -> (b: bool)
        ensures
            b == self@.full(),
    {
        self.contents.as_str().as_bytes().len() >= MAX_CELL_BYTES
    }

    pub fn clear(&mut self)
        ensures
            final(self)@ == (CellView { contents: Seq::empty(), ..old(self)@ }),
    {
        self.contents = String::new();
    }

    pub fn contents(&self) -> (s: &str)
        ensures
            s@ == self@.contents,
    {
        self.contents.as_str()
    }

    /// A blank cell: empty, a space, or a no-break space.
    pub fn is_blank(&self) -> (b: bool)
        ensures
            b == self@.looks_blank(),
    {
        proof {
            reveal_strlit(" ");
            reveal_strlit("\u{a0}");
            assert(" "@ =~= seq![' ']);
            assert("\u{a0}"@ =~= seq!['\u{a0}']);
        }
        let s = self.contents.as_str();
        assert(s@.len() == 0 ==> s@ =~= Seq::<char>::empty());
        s.is_empty() || text_eq(s, " ") || text_eq(s, "\u{a0}")
    }

    pub fn contents_match(&self, other: &Cell) -> (b: bool)
        ensures
            b == ((self@.looks_blank() && other@.looks_blank()) || self@.contents
                == other@.contents),
    {
        (self.is_blank() && other.is_blank()) || text_eq(
            self.contents.as_str(),
            other.contents.as_str(),
        )
    }

    /// Is this a printing ISO 8859-1 character? A cheap test for common narrow text.
    pub fn isprint_iso8859_1(c: char) -> (b: bool)
        ensures
            b == (0xa0 <= c as u32 <= 0xff || 0x20 <= c as u32 <= 0x7e),
    {
        let c: u32 = c as u32;
        (0xa0 <= c && c <= 0xff) || (0x20 <= c && c <= 0x7e)
    }

    pub fn append(&mut self, c: char)
        ensures
            final(self)@ == old(self)@.appended(c),
    {
        self.contents.push(c);
    }

    /// Append what this cell displays, as it should be sent to a terminal.
    pub fn print_grapheme(&self, out: &mut String)
        ensures
            final(out)@ == old(out)@ + self@.grapheme(),
    {
        if self.contents.as_str().is_empty() {
            out.push(' ');
            assert(out@ =~= old(out)@ + self@.grapheme());
            return ;
        }
        // A cell starting with a combining character needs something to combine with.

        if self.fallback {
            out.push('\u{a0}');
        }
        out.append(self.contents.as_str());
        assert(out@ =~= old(out)@ + self@.grapheme());
    }

    pub fn hyperlink(&self) -> (l: &Hyperlink)
        ensures
            l@ == self@.hyperlink,
    {
        &self.hyperlink
    }

    pub fn set_hyperlink(&mut self, l: Hyperlink)
        ensures
            final(self)@ == (CellView { hyperlink: l@, ..old(self)@ }),
    {
        self.hyperlink = l;
    }

    pub fn renditions(&self) -> (r: &Renditions)
        ensures
            *r == self@.renditions,
    {
        &self.renditions
    }

    pub fn renditions_mut(&mut self) -> (r: &mut Renditions)
        ensures
            *r == old(self)@.renditions,
            final(self)@ == (CellView { renditions: *final(r), ..old(self)@ }),
    {
        &mut self.renditions
    }

    pub fn set_renditions(&mut self, r: Renditions)
        ensures
            final(self)@ == (CellView { renditions: r, ..old(self)@ }),
    {
        self.renditions = r;
    }

    pub fn wide(&self) -> (b: bool)
        ensures
            b == self@.wide,
    {
        self.wide
    }

    pub fn set_wide(&mut self, w: bool)
        ensures
            final(self)@ == (CellView { wide: w, ..old(self)@ }),
    {
        self.wide = w;
    }

    pub fn width(&self) -> (w: u32)
        ensures
            w == self@.columns(),
    {
        if self.wide {
            2
        } else {
            1
        }
    }

    pub fn fallback(&self) -> (b: bool)
        ensures
            b == self@.fallback,
    {
        self.fallback
    }

    pub fn set_fallback(&mut self, f: bool)
        ensures
            final(self)@ == (CellView { fallback: f, ..old(self)@ }),
    {
        self.fallback = f;
    }

    pub fn wrap(&self) -> (b: bool)
        ensures
            b == self@.wrap,
    {
        self.wrap
    }

    pub fn set_wrap(&mut self, f: bool)
        ensures
            final(self)@ == (CellView { wrap: f, ..old(self)@ }),
    {
        self.wrap = f;
    }

    /// A rendering of the contents for reports: the grapheme, then its bytes.
    pub fn debug_contents(&self) -> (s: String)
        ensures
            s@ == cell_report(self@),
    {
        let mut chars = String::new();
        chars.push('\'');
        if self.contents.as_str().is_empty() {
            chars.push('_');
            chars.push('\'');
            chars.push(' ');
            chars.push('(');
            chars.push(')');
            assert(chars@ =~= cell_report(self@));
            return chars;
        }
        self.print_grapheme(&mut chars);
        chars.push('\'');
        chars.push(' ');
        chars.push('[');
        let ghost head = seq!['\''] + self@.grapheme() + seq!['\'', ' ', '['];
        assert(chars@ =~= head);
        let bytes = self.contents.as_str().as_bytes();
        let mut i: usize = 0;
        while i < bytes.len()
            invariant
                i <= bytes.len(),
                chars@ == head + hex_list(bytes@.subrange(0, i as int)),
            decreases bytes.len() - i,
        {
            let ghost before = bytes@.subrange(0, i as int);
            if i != 0 {
                chars.push(',');
                chars.push(' ');
            }
            chars.push('0');
            chars.push('x');
            push_hex_byte(&mut chars, bytes[i]);
            i = i + 1;
            proof {
                let after = bytes@.subrange(0, i as int);
                assert(after.drop_last() =~= before);
                assert(chars@ =~= head + hex_list(after));
            }
        }
        chars.push(']');
        assert(bytes@.subrange(0, bytes.len() as int) =~= bytes@);
        assert(chars@ =~= cell_report(self@));
        chars
    }
}

} // verus!
