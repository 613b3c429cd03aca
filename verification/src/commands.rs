//! The commands that frames are made of, and what a terminal makes of them.

use vstd::prelude::*;
use vstd::utf8::*;

use crate::cell::{
    attribute_code, color_code, osc8_text, true_color, Attribute, Link, Renditions,
    TRUE_COLOR_MASK,
};
use crate::dispatcher::{
    entry_for, mode_performed, osc_performed, param_or, performed, cursor_performed, printable,
    renditions_selected, semicolon_from, MAXIMUM_CLIPBOARD_SIZE, MAX_PARAM_BYTES,
};
use crate::draw_state::DrawView;
use crate::emulator::EmulatorView;
use crate::framebuffer::Screen;
use crate::text::decimal;
use crate::typing::{
    all_in_command, csi, in_command, lemma_csi, lemma_decimal_length, lemma_more_params_concat,
    lemma_params_read_back, lemma_terminated_command, more_params, param_list, terminated_command,
    unwrapped,
};

verus! {

/// Is this a colour that can be selected, where `base` is 30 for the foreground and 40 for
/// the background: the default, one of the palette, or one of 24 bits?
pub open spec fn is_color(c: u32, base: u32) -> bool {
    c == 0 || base <= c <= base + 255 || 0x1000000 <= c <= 0x1ffffff
}

impl Renditions {
    /// Are these renditions that can be selected?
    pub open spec fn selectable(self) -> bool {
        is_color(self.foreground_color, 30) && is_color(self.background_color, 40)
    }
}

/// The parameter for an attribute that is on.
spec fn attribute_params(on: bool, code: int) -> Seq<int> {
    if on {
        seq![code]
    } else {
        Seq::empty()
    }
}

/// The parameters that select a colour.
spec fn color_params(c: u32, base: u32) -> Seq<int> {
    if c == 0 {
        Seq::empty()
    } else if true_color(c) {
        seq![
            base + 8,
            2,
            ((c >> 16) & 0xff) as int,
            ((c >> 8) & 0xff) as int,
            (c & 0xff) as int,
        ]
    } else if c > base + 7 {
        seq![base + 8, 5, c - base]
    } else {
        seq![c as int]
    }
}

proof fn lemma_true_color(c: u32)
    by (bit_vector)
    ensures
        0x1000000 <= c <= 0x1ffffff ==> c & 0x1000000 != 0,
        c <= 0xffffff ==> c & 0x1000000 == 0,
        ((c >> 16) & 0xff) <= 255,
        ((c >> 8) & 0xff) <= 255,
        (c & 0xff) <= 255,
        0x1000000 <= c <= 0x1ffffff ==> (0x1000000u32 | (((c >> 16) & 0xff) << 16) | (((c >> 8)
            & 0xff) << 8) | (c & 0xff)) == c,
{
}

/// Selection does not look at parameters that were dealt with.
proof fn lemma_selected_shift(r: Renditions, done: Seq<int>, list: Seq<int>, i: int)
    requires
        0 <= i <= list.len(),
    ensures
        renditions_selected(r, done + list, done.len() + i) == renditions_selected(r, list, i),
    decreases list.len() - i,
{
    let all = done + list;
    let k = done.len() + i;
    if i < list.len() {
        assert(all[k] == list[i]);
        let p = param_or(list, i, 0);
        assert(param_or(all, k, 0) == p);
        if i + 1 < list.len() {
            assert(all[k + 1] == list[i + 1]);
        }
        if i + 2 < list.len() {
            assert(all[k + 2] == list[i + 2]);
        }
        if i + 3 < list.len() {
            assert(all[k + 3] == list[i + 3]);
        }
        if i + 4 < list.len() {
            assert(all[k + 4] == list[i + 4]);
        }
        assert(param_or(all, k + 1, -1) == param_or(list, i + 1, -1));
        assert(param_or(all, k + 2, 0) == param_or(list, i + 2, 0));
        assert(param_or(all, k + 3, 0) == param_or(list, i + 3, 0));
        assert(param_or(all, k + 4, 0) == param_or(list, i + 4, 0));
        if (p == 38 || p == 48) && list.len() - i >= 3 && param_or(list, i + 1, -1) == 5 {
            let color = param_or(list, i + 2, 0) as i32;
            lemma_selected_shift(
                if p == 38 {
                    r.with_foreground(color)
                } else {
                    r.with_background(color)
                },
                done,
                list,
                i + 3,
            );
        } else if (p == 38 || p == 48) && list.len() - i >= 5 && param_or(list, i + 1, -1) == 2 {
            let color = (TRUE_COLOR_MASK | ((param_or(list, i + 2, 0) as u32) << 16) | ((param_or(
                list,
                i + 3,
                0,
            ) as u32) << 8) | (param_or(list, i + 4, 0) as u32)) as i32;
            lemma_selected_shift(
                if p == 38 {
                    r.with_foreground(color)
                } else {
                    r.with_background(color)
                },
                done,
                list,
                i + 5,
            );
        } else {
            lemma_selected_shift(r.with_rendition(p as u32), done, list, i + 1);
        }
    }
}

/// A parameter that stands for itself.
proof fn lemma_simple_selected(r: Renditions, code: int, rest: Seq<int>)
    requires
        0 <= code <= 107,
        code != 38,
        code != 48,
    ensures
        renditions_selected(r, seq![code] + rest, 0) == renditions_selected(
            r.with_rendition(code as u32),
            rest,
            0,
        ),
{
    let all = seq![code] + rest;
    assert(all[0] == code);
    lemma_selected_shift(r.with_rendition(code as u32), seq![code], rest, 0);
}

proof fn lemma_attribute_selected(r: Renditions, on: bool, code: int, attr: Attribute, rest: Seq<int>)
    requires
        1 <= code <= 9,
        code != 6,
        code == match attr {
            Attribute::Bold => 1int,
            Attribute::Faint => 2,
            Attribute::Italic => 3,
            Attribute::Underlined => 4,
            Attribute::Blink => 5,
            Attribute::Inverse => 7,
            Attribute::Invisible => 8,
            Attribute::Strikethrough => 9,
        },
    ensures
        renditions_selected(r, attribute_params(on, code) + rest, 0) == renditions_selected(
            r.with_if(on, attr),
            rest,
            0,
        ),
{
    if on {
        lemma_simple_selected(r, code, rest);
    } else {
        assert(attribute_params(on, code) + rest =~= rest);
    }
}

proof fn lemma_foreground_selected(r: Renditions, c: u32, rest: Seq<int>)
    requires
        is_color(c, 30),
        r.foreground_color == 0,
    ensures
        renditions_selected(r, color_params(c, 30) + rest, 0) == renditions_selected(
            Renditions { foreground_color: c, ..r },
            rest,
            0,
        ),
{
    lemma_true_color(c);
    let list = color_params(c, 30);
    let all = list + rest;
    if c == 0 {
        assert(all =~= rest);
    } else if true_color(c) {
        assert(all[0] == 38 && all[1] == 2 && all[2] == list[2] && all[3] == list[3] && all[4]
            == list[4]);
        lemma_selected_shift(Renditions { foreground_color: c, ..r }, list, rest, 0);
    } else if c > 37 {
        assert(all[0] == 38 && all[1] == 5 && all[2] == c - 30);
        lemma_selected_shift(Renditions { foreground_color: c, ..r }, list, rest, 0);
    } else {
        lemma_simple_selected(r, c as int, rest);
    }
}

proof fn lemma_background_selected(r: Renditions, c: u32, rest: Seq<int>)
    requires
        is_color(c, 40),
        r.background_color == 0,
    ensures
        renditions_selected(r, color_params(c, 40) + rest, 0) == renditions_selected(
            Renditions { background_color: c, ..r },
            rest,
            0,
        ),
{
    lemma_true_color(c);
    let list = color_params(c, 40);
    let all = list + rest;
    if c == 0 {
        assert(all =~= rest);
    } else if true_color(c) {
        assert(all[0] == 48 && all[1] == 2 && all[2] == list[2] && all[3] == list[3] && all[4]
            == list[4]);
        lemma_selected_shift(Renditions { background_color: c, ..r }, list, rest, 0);
    } else if c > 47 {
        assert(all[0] == 48 && all[1] == 5 && all[2] == c - 40);
        lemma_selected_shift(Renditions { background_color: c, ..r }, list, rest, 0);
    } else {
        lemma_simple_selected(r, c as int, rest);
    }
}

proof fn lemma_assoc<T>(a: Seq<T>, b: Seq<T>, c: Seq<T>)
    ensures
        (a + b) + c == a + (b + c),
{
    assert((a + b) + c =~= a + (b + c));
}

/// The parameters of the attributes that are on.
spec fn all_attribute_params(r: Renditions) -> Seq<int> {
    attribute_params(r.has(Attribute::Bold), 1) + attribute_params(r.has(Attribute::Faint), 2)
        + attribute_params(r.has(Attribute::Italic), 3) + attribute_params(
        r.has(Attribute::Underlined),
        4,
    ) + attribute_params(r.has(Attribute::Blink), 5) + attribute_params(
        r.has(Attribute::Inverse),
        7,
    ) + attribute_params(r.has(Attribute::Invisible), 8) + attribute_params(
        r.has(Attribute::Strikethrough),
        9,
    )
}

impl Renditions {
    /// With an attribute switched on, if it is to be.
    spec fn with_if(self, on: bool, attr: Attribute) -> Renditions {
        if on {
            self.with_attribute(attr, true)
        } else {
            self
        }
    }
}

/// Attributes switched on one after the other are what they were switched on for.
proof fn lemma_attributes_rebuilt(a: u8)
    by (bit_vector)
    ensures
        ({
            let b1: u8 = if a & 1u8 != 0 {
                0u8 | 1u8
            } else {
                0u8
            };
            let b2: u8 = if a & 2u8 != 0 {
                b1 | 2u8
            } else {
                b1
            };
            let b3: u8 = if a & 4u8 != 0 {
                b2 | 4u8
            } else {
                b2
            };
            let b4: u8 = if a & 8u8 != 0 {
                b3 | 8u8
            } else {
                b3
            };
            let b5: u8 = if a & 16u8 != 0 {
                b4 | 16u8
            } else {
                b4
            };
            let b6: u8 = if a & 32u8 != 0 {
                b5 | 32u8
            } else {
                b5
            };
            let b7: u8 = if a & 64u8 != 0 {
                b6 | 64u8
            } else {
                b6
            };
            let b8: u8 = if a & 128u8 != 0 {
                b7 | 128u8
            } else {
                b7
            };
            b8 == a
        }),
{
}

proof fn lemma_renditions_rebuilt(r: Renditions)
    ensures
        Renditions::plain(0).with_if(r.has(Attribute::Bold), Attribute::Bold).with_if(
            r.has(Attribute::Faint),
            Attribute::Faint,
        ).with_if(r.has(Attribute::Italic), Attribute::Italic).with_if(
            r.has(Attribute::Underlined),
            Attribute::Underlined,
        ).with_if(r.has(Attribute::Blink), Attribute::Blink).with_if(
            r.has(Attribute::Inverse),
            Attribute::Inverse,
        ).with_if(r.has(Attribute::Invisible), Attribute::Invisible).with_if(
            r.has(Attribute::Strikethrough),
            Attribute::Strikethrough,
        ) == (Renditions { attributes: r.attributes, ..Renditions::plain(0) }),
{
    lemma_attributes_rebuilt(r.attributes);
}

proof fn lemma_attributes_selected(r: Renditions, rest: Seq<int>)
    ensures
        renditions_selected(Renditions::plain(0), all_attribute_params(r) + rest, 0)
            == renditions_selected(
            Renditions { attributes: r.attributes, ..Renditions::plain(0) },
            rest,
            0,
        ),
{
    let (h1, h2, h3, h4) = (
        r.has(Attribute::Bold),
        r.has(Attribute::Faint),
        r.has(Attribute::Italic),
        r.has(Attribute::Underlined),
    );
    let (h5, h6, h7, h8) = (
        r.has(Attribute::Blink),
        r.has(Attribute::Inverse),
        r.has(Attribute::Invisible),
        r.has(Attribute::Strikethrough),
    );
    let l1 = attribute_params(h1, 1);
    let l2 = l1 + attribute_params(h2, 2);
    let l3 = l2 + attribute_params(h3, 3);
    let l4 = l3 + attribute_params(h4, 4);
    let l5 = l4 + attribute_params(h5, 5);
    let l6 = l5 + attribute_params(h6, 7);
    let l7 = l6 + attribute_params(h7, 8);
    let t8 = attribute_params(h8, 9) + rest;
    let t7 = attribute_params(h7, 8) + t8;
    let t6 = attribute_params(h6, 7) + t7;
    let t5 = attribute_params(h5, 5) + t6;
    let t4 = attribute_params(h4, 4) + t5;
    let t3 = attribute_params(h3, 3) + t4;
    let t2 = attribute_params(h2, 2) + t3;
    lemma_assoc(l7, attribute_params(h8, 9), rest);
    lemma_assoc(l6, attribute_params(h7, 8), t8);
    lemma_assoc(l5, attribute_params(h6, 7), t7);
    lemma_assoc(l4, attribute_params(h5, 5), t6);
    lemma_assoc(l3, attribute_params(h4, 4), t5);
    lemma_assoc(l2, attribute_params(h3, 3), t4);
    lemma_assoc(l1, attribute_params(h2, 2), t3);
    assert(all_attribute_params(r) + rest == l1 + t2);
    let r0 = Renditions::plain(0);
    let r1 = r0.with_if(h1, Attribute::Bold);
    let r2 = r1.with_if(h2, Attribute::Faint);
    let r3 = r2.with_if(h3, Attribute::Italic);
    let r4 = r3.with_if(h4, Attribute::Underlined);
    let r5 = r4.with_if(h5, Attribute::Blink);
    let r6 = r5.with_if(h6, Attribute::Inverse);
    let r7 = r6.with_if(h7, Attribute::Invisible);
    lemma_attribute_selected(r0, h1, 1, Attribute::Bold, t2);
    lemma_attribute_selected(r1, h2, 2, Attribute::Faint, t3);
    lemma_attribute_selected(r2, h3, 3, Attribute::Italic, t4);
    lemma_attribute_selected(r3, h4, 4, Attribute::Underlined, t5);
    lemma_attribute_selected(r4, h5, 5, Attribute::Blink, t6);
    lemma_attribute_selected(r5, h6, 7, Attribute::Inverse, t7);
    lemma_attribute_selected(r6, h7, 8, Attribute::Invisible, t8);
    lemma_attribute_selected(r7, h8, 9, Attribute::Strikethrough, rest);
    lemma_renditions_rebuilt(r);
}

/// All parameters of a selection, after the reset.
spec fn selection_params(r: Renditions) -> Seq<int> {
    all_attribute_params(r) + color_params(r.foreground_color, 30) + color_params(
        r.background_color,
        40,
    )
}

proof fn lemma_all_selected(start: Renditions, r: Renditions)
    requires
        r.selectable(),
    ensures
        renditions_selected(start, seq![0int] + selection_params(r), 0) == r,
{
    let fg = color_params(r.foreground_color, 30);
    let bg = color_params(r.background_color, 40);
    lemma_simple_selected(start, 0, selection_params(r));
    assert(selection_params(r) =~= all_attribute_params(r) + (fg + bg));
    lemma_attributes_selected(r, fg + bg);
    let r1 = Renditions { attributes: r.attributes, ..Renditions::plain(0) };
    lemma_foreground_selected(r1, r.foreground_color, bg);
    let r2 = Renditions { foreground_color: r.foreground_color, ..r1 };
    assert(bg + Seq::empty() =~= bg);
    lemma_background_selected(r2, r.background_color, Seq::empty());
}

proof fn lemma_attribute_text(on: bool, code: int, c: char)
    requires
        1 <= code <= 9,
        c == (48 + code) as char,
    ensures
        attribute_code(on, c) == more_params(attribute_params(on, code)),
        more_params(attribute_params(on, code)).len() <= 2,
        param_list(attribute_params(on, code)),
{
    if on {
        let list = seq![code];
        assert(list.drop_last() =~= Seq::empty());
        assert(more_params(list.drop_last()) =~= Seq::empty());
        assert(more_params(list) =~= seq![';', c]);
    }
}

proof fn lemma_small_decimal(n: nat)
    requires
        n <= 999,
    ensures
        decimal(n).len() <= 3,
{
    reveal_with_fuel(vstd::arithmetic::power::pow, 4);
    lemma_decimal_length(n, 3, 1000);
}

proof fn lemma_color_text(c: u32, base: u32)
    requires
        base == 30 || base == 40,
        is_color(c, base),
    ensures
        color_code(c, base) == more_params(color_params(c, base)),
        color_code(c, base).len() <= 20,
        param_list(color_params(c, base)),
{
    lemma_true_color(c);
    let list = color_params(c, base);
    reveal_with_fuel(more_params, 6);
    if c == 0 {
    } else if true_color(c) {
        let (r, g, b) = (((c >> 16) & 0xff) as nat, ((c >> 8) & 0xff) as nat, (c & 0xff) as nat);
        lemma_small_decimal((base + 8) as nat);
        lemma_small_decimal(r);
        lemma_small_decimal(g);
        lemma_small_decimal(b);
        let l4 = list.drop_last();
        let l3 = l4.drop_last();
        let l2 = l3.drop_last();
        let l1 = l2.drop_last();
        assert(l1.drop_last() =~= Seq::empty());
        assert(decimal(2) =~= seq!['2']);
        assert(more_params(l1) =~= seq![';'] + decimal((base + 8) as nat));
        assert(more_params(l2) =~= seq![';'] + decimal((base + 8) as nat) + seq![';', '2']);
        assert(more_params(list) =~= color_code(c, base));
    } else if c > base + 7 {
        lemma_small_decimal((base + 8) as nat);
        lemma_small_decimal((c - base) as nat);
        let l2 = list.drop_last();
        let l1 = l2.drop_last();
        assert(l1.drop_last() =~= Seq::empty());
        assert(decimal(5) =~= seq!['5']);
        assert(more_params(l1) =~= seq![';'] + decimal((base + 8) as nat));
        assert(more_params(list) =~= color_code(c, base));
    } else {
        lemma_small_decimal(c as nat);
        assert(list.drop_last() =~= Seq::empty());
        assert(more_params(list) =~= color_code(c, base));
    }
}

proof fn lemma_param_list_concat(a: Seq<int>, b: Seq<int>)
    requires
        param_list(a),
        param_list(b),
    ensures
        param_list(a + b),
{
}

/// The text of the attributes that are on.
spec fn attributes_text(r: Renditions) -> Seq<char> {
    attribute_code(r.has(Attribute::Bold), '1') + attribute_code(r.has(Attribute::Faint), '2')
        + attribute_code(r.has(Attribute::Italic), '3') + attribute_code(
        r.has(Attribute::Underlined),
        '4',
    ) + attribute_code(r.has(Attribute::Blink), '5') + attribute_code(
        r.has(Attribute::Inverse),
        '7',
    ) + attribute_code(r.has(Attribute::Invisible), '8') + attribute_code(
        r.has(Attribute::Strikethrough),
        '9',
    )
}

proof fn lemma_list_grows(list: Seq<int>, text: Seq<char>, on: bool, code: int, c: char, bound: nat)
    requires
        text == more_params(list),
        text.len() <= bound,
        param_list(list),
        1 <= code <= 9,
        c == (48 + code) as char,
    ensures
        text + attribute_code(on, c) == more_params(list + attribute_params(on, code)),
        (text + attribute_code(on, c)).len() <= bound + 2,
        param_list(list + attribute_params(on, code)),
{
    lemma_attribute_text(on, code, c);
    lemma_more_params_concat(list, attribute_params(on, code));
    lemma_param_list_concat(list, attribute_params(on, code));
}

proof fn lemma_attributes_text(r: Renditions)
    ensures
        attributes_text(r) == more_params(all_attribute_params(r)),
        attributes_text(r).len() <= 16,
        param_list(all_attribute_params(r)),
{
    let (h1, h2, h3, h4) = (
        r.has(Attribute::Bold),
        r.has(Attribute::Faint),
        r.has(Attribute::Italic),
        r.has(Attribute::Underlined),
    );
    let (h5, h6, h7, h8) = (
        r.has(Attribute::Blink),
        r.has(Attribute::Inverse),
        r.has(Attribute::Invisible),
        r.has(Attribute::Strikethrough),
    );
    let l1 = attribute_params(h1, 1);
    let l2 = l1 + attribute_params(h2, 2);
    let l3 = l2 + attribute_params(h3, 3);
    let l4 = l3 + attribute_params(h4, 4);
    let l5 = l4 + attribute_params(h5, 5);
    let l6 = l5 + attribute_params(h6, 7);
    let l7 = l6 + attribute_params(h7, 8);
    let s1 = attribute_code(h1, '1');
    let s2 = s1 + attribute_code(h2, '2');
    let s3 = s2 + attribute_code(h3, '3');
    let s4 = s3 + attribute_code(h4, '4');
    let s5 = s4 + attribute_code(h5, '5');
    let s6 = s5 + attribute_code(h6, '7');
    let s7 = s6 + attribute_code(h7, '8');
    lemma_attribute_text(h1, 1, '1');
    lemma_list_grows(l1, s1, h2, 2, '2', 2);
    lemma_list_grows(l2, s2, h3, 3, '3', 4);
    lemma_list_grows(l3, s3, h4, 4, '4', 6);
    lemma_list_grows(l4, s4, h5, 5, '5', 8);
    lemma_list_grows(l5, s5, h6, 7, '7', 10);
    lemma_list_grows(l6, s6, h7, 8, '8', 12);
    lemma_list_grows(l7, s7, h8, 9, '9', 14);
}

proof fn lemma_text_regrouped(r: Renditions)
    ensures
        r.sgr_text() == seq!['\x1b', '[', '0'] + attributes_text(r) + color_code(
            r.foreground_color,
            30,
        ) + color_code(r.background_color, 40) + seq!['m'],
{
    let x = seq!['\x1b', '[', '0'];
    let s1 = attribute_code(r.has(Attribute::Bold), '1');
    let c2 = attribute_code(r.has(Attribute::Faint), '2');
    let c3 = attribute_code(r.has(Attribute::Italic), '3');
    let c4 = attribute_code(r.has(Attribute::Underlined), '4');
    let c5 = attribute_code(r.has(Attribute::Blink), '5');
    let c6 = attribute_code(r.has(Attribute::Inverse), '7');
    let c7 = attribute_code(r.has(Attribute::Invisible), '8');
    let c8 = attribute_code(r.has(Attribute::Strikethrough), '9');
    lemma_assoc(x, s1, c2);
    lemma_assoc(x, s1 + c2, c3);
    lemma_assoc(x, s1 + c2 + c3, c4);
    lemma_assoc(x, s1 + c2 + c3 + c4, c5);
    lemma_assoc(x, s1 + c2 + c3 + c4 + c5, c6);
    lemma_assoc(x, s1 + c2 + c3 + c4 + c5 + c6, c7);
    lemma_assoc(x, s1 + c2 + c3 + c4 + c5 + c6 + c7, c8);
}

proof fn lemma_sequence_regrouped(t: Seq<char>, f: Seq<char>, b: Seq<char>)
    ensures
        seq!['\x1b', '[', '0'] + t + f + b + seq!['m'] == csi(seq!['0'] + (t + f + b), 'm'),
{
    let x = seq!['\x1b', '[', '0'];
    let y = seq!['\x1b', '['];
    assert(x =~= y + seq!['0']);
    lemma_assoc(x, t, f);
    lemma_assoc(x, t + f, b);
    lemma_assoc(y, seq!['0'], t + f + b);
}

/// The text of a selection is a control sequence.
proof fn lemma_selection_text(r: Renditions) -> (params: Seq<char>)
    requires
        r.selectable(),
    ensures
        r.sgr_text() == csi(params, 'm'),
        params == decimal(0) + more_params(selection_params(r)),
        params.len() < MAX_PARAM_BYTES,
        param_list(selection_params(r)),
{
    let fg = color_params(r.foreground_color, 30);
    let bg = color_params(r.background_color, 40);
    let attrs = all_attribute_params(r);
    lemma_attributes_text(r);
    lemma_color_text(r.foreground_color, 30);
    lemma_color_text(r.background_color, 40);
    lemma_more_params_concat(attrs, fg);
    lemma_more_params_concat(attrs + fg, bg);
    lemma_param_list_concat(attrs, fg);
    lemma_param_list_concat(attrs + fg, bg);
    let (t, f, b) = (
        attributes_text(r),
        color_code(r.foreground_color, 30),
        color_code(r.background_color, 40),
    );
    let more = more_params(selection_params(r));
    assert(more == t + f + b);
    let params = decimal(0) + more;
    assert(decimal(0) =~= seq!['0']);
    lemma_text_regrouped(r);
    lemma_sequence_regrouped(t, f, b);
    params
}

/// Renditions that are sent to a terminal are the renditions it has: nothing of what it had
/// before is left, and nothing else changes.
pub proof fn selected_renditions_are_read_back(e: EmulatorView, r: Renditions)
    requires
        e.settled(),
        r.selectable(),
    ensures
        e.shows(
            e.screen.with_ds(DrawView { renditions: r, ..e.screen.ds }),
            e.typed(r.sgr_text()),
        ),
{
    let params = lemma_selection_text(r);
    lemma_params_read_back(0, selection_params(r));
    lemma_csi(e, params, 'm');
    lemma_all_selected(e.screen.ds.renditions, r);
    reveal(entry_for);
    reveal(performed);
    reveal(cursor_performed);
    reveal(mode_performed);
}

impl Link {
    /// Is this a link that can be sent: of printable characters, with parameters that hold
    /// no semicolon, and a target, and not too long?
    pub open spec fn sendable(self) -> bool {
        &&& printable(self.params)
        &&& printable(self.url)
        &&& self.url.len() > 0
        &&& forall|i: int| 0 <= i < self.params.len() ==> #[trigger] self.params[i] != ';'
        &&& self.params.len() + self.url.len() + 3 <= MAXIMUM_CLIPBOARD_SIZE
    }
}

/// Can this link be sent, or the absence of one?
pub open spec fn link_sendable(link: Option<Link>) -> bool {
    link matches Some(l) ==> l.sendable()
}

/// The command that opens a link.
spec fn link_command(link: Option<Link>) -> Seq<char> {
    match link {
        Some(l) => seq!['8', ';'] + l.params + seq![';'] + l.url,
        None => seq!['8', ';', ';'],
    }
}

proof fn lemma_semicolon_after(s: Seq<char>, from: int, k: int)
    requires
        0 <= from <= k < s.len(),
        s[k] == ';',
        forall|i: int| from <= i < k ==> #[trigger] s[i] != ';',
    ensures
        semicolon_from(s, from) == k,
    decreases k - from,
{
    if from < k {
        lemma_semicolon_after(s, from + 1, k);
    }
}

proof fn lemma_link_command(s: Screen, link: Option<Link>)
    requires
        link_sendable(link),
    ensures
        osc_performed(link_command(link), s) == s.with_ds(DrawView { hyperlink: link, ..s.ds }),
        all_in_command(link_command(link)),
        link_command(link).len() <= MAXIMUM_CLIPBOARD_SIZE,
        osc8_text(link) == terminated_command(link_command(link)),
{
    reveal(osc_performed);
    let osc = link_command(link);
    assert(osc[0] == '8' && osc[1] == ';');
    lemma_semicolon_after(osc, 0, 1);
    match link {
        Some(l) => {
            let k = l.params.len() as int + 2;
            assert(osc.len() == l.params.len() + l.url.len() + 3);
            assert forall|i: int| 0 <= i < osc.len() implies 32 <= #[trigger] osc[i] as u32
                <= 126 by {
                if 2 <= i < k {
                    assert(osc[i] == l.params[i - 2]);
                } else if i > k {
                    assert(osc[i] == l.url[i - k - 1]);
                }
            }
            assert(printable(osc));
            assert forall|i: int| 0 <= i < osc.len() implies in_command(#[trigger] osc[i]) by {
                assert(32 <= osc[i] as u32 <= 126);
            }
            assert forall|i: int| 2 <= i < k implies #[trigger] osc[i] != ';' by {
                assert(osc[i] == l.params[i - 2]);
            }
            lemma_semicolon_after(osc, 2, k);
            assert(osc.subrange(2, k) =~= l.params);
            assert(osc.subrange(k + 1, osc.len() as int) =~= l.url);
            assert(osc8_text(link) =~= terminated_command(osc));
        },
        None => {
            lemma_semicolon_after(osc, 2, 2);
            assert(osc8_text(link) =~= terminated_command(osc));
        },
    }
}

/// A link that is sent to a terminal is the link it has open, and nothing else changes but
/// that a pending wrap is cancelled.
pub proof fn opened_links_are_read_back(e: EmulatorView, link: Option<Link>)
    requires
        e.settled(),
        link_sendable(link),
    ensures
        e.shows(
            unwrapped(e.screen.with_ds(DrawView { hyperlink: link, ..e.screen.ds })),
            e.typed(osc8_text(link)),
        ),
{
    lemma_link_command(e.screen, link);
    lemma_terminated_command(e, link_command(link));
}

} // verus!
