//! Taking text apart: words, numbers and separators.

use vstd::prelude::*;
use vstd::slice::*;

use crate::text::{chars_of, string_of};
use crate::views::{group_views, views};

verus! {

broadcast use group_views;

/// Characters with the White_Space property.
pub open spec fn white(c: char) -> bool {
    ||| '\u{9}' <= c <= '\u{d}'
    ||| c == ' '
    ||| c == '\u{85}'
    ||| c == '\u{a0}'
    ||| c == '\u{1680}'
    ||| '\u{2000}' <= c <= '\u{200a}'
    ||| c == '\u{2028}'
    ||| c == '\u{2029}'
    ||| c == '\u{202f}'
    ||| c == '\u{205f}'
    ||| c == '\u{3000}'
}

/// Does a character have the White_Space property?
pub fn is_white(c: char) -> (b: bool)
    ensures
        b == white(c),
{
    ('\u{9}' <= c && c <= '\u{d}') || c == ' ' || c == '\u{85}' || c == '\u{a0}' || c == '\u{1680}'
        || ('\u{2000}' <= c && c <= '\u{200a}') || c == '\u{2028}' || c == '\u{2029}' || c
        == '\u{202f}' || c == '\u{205f}' || c == '\u{3000}'
}

/// The words that are complete after a text, and the one that has begun.
pub open spec fn words_begun(s: Seq<char>) -> (Seq<Seq<char>>, Seq<char>)
    decreases s.len(),
{
    if s.len() == 0 {
        (Seq::empty(), Seq::empty())
    } else {
        let (done, begun) = words_begun(s.drop_last());
        if !white(s.last()) {
            (done, begun.push(s.last()))
        } else if begun.len() > 0 {
            (done.push(begun), Seq::empty())
        } else {
            (done, begun)
        }
    }
}

/// The words of a text, which white space separates.
pub open spec fn words_in(s: Seq<char>) -> Seq<Seq<char>> {
    let (done, begun) = words_begun(s);
    if begun.len() > 0 {
        done.push(begun)
    } else {
        done
    }
}

/// The words of a text.
pub fn split_words(s: &str) -> (words: Vec<String>)
    ensures
        views(words@) == words_in(s@),
{
    let chars = chars_of(s);
    let mut done: Vec<String> = Vec::new();
    let mut begun = String::new();
    let mut n: usize = 0;
    let mut i: usize = 0;
    assert(s@.subrange(0, 0) =~= Seq::<char>::empty());
    assert(views(done@) =~= Seq::empty());
    while i < chars.len()
        invariant
            chars@ == s@,
            i <= s@.len(),
            n == begun@.len(),
            n <= i,
            (views(done@), begun@) == words_begun(s@.subrange(0, i as int)),
        decreases s@.len() - i,
    {
        proof {
            let next = s@.subrange(0, i + 1);
            assert(next.drop_last() =~= s@.subrange(0, i as int));
        }
        if !is_white(chars[i]) {
            begun.push(chars[i]);
            n = n + 1;
        } else if n > 0 {
            done.push(begun);
            begun = String::new();
            n = 0;
        }
        i = i + 1;
    }
    assert(s@.subrange(0, i as int) =~= s@);
    if n > 0 {
        done.push(begun);
    }
    done
}

/// How many characters at the beginning are white space.
pub open spec fn white_before(s: Seq<char>, i: int) -> int
    decreases s.len() - i,
{
    if 0 <= i < s.len() && white(s[i]) {
        white_before(s, i + 1)
    } else {
        i
    }
}

/// Where the white space at the end begins, not before `from`.
pub open spec fn white_after(s: Seq<char>, from: int, i: int) -> int
    decreases i - from,
{
    if from < i <= s.len() && white(s[i - 1]) {
        white_after(s, from, i - 1)
    } else {
        i
    }
}

/// A text without the white space at both ends.
pub open spec fn trimmed(s: Seq<char>) -> Seq<char> {
    let start = white_before(s, 0);
    s.subrange(start, white_after(s, start, s.len() as int))
}

/// A text without the white space at both ends.
pub fn trim(s: &str) -> (t: String)
    ensures
        t@ == trimmed(s@),
{
    let chars = chars_of(s);
    let mut start: usize = 0;
    while start < chars.len() && is_white(chars[start])
        invariant
            chars@ == s@,
            start <= s@.len(),
            white_before(s@, 0) == white_before(s@, start as int),
        decreases s@.len() - start,
    {
        start = start + 1;
    }
    let mut end: usize = chars.len();
    while end > start && is_white(chars[end - 1])
        invariant
            chars@ == s@,
            start <= end <= s@.len(),
            white_after(s@, start as int, s@.len() as int) == white_after(
                s@,
                start as int,
                end as int,
            ),
        decreases end,
    {
        end = end - 1;
    }
    string_of(slice_subrange(chars.as_slice(), start, end))
}

/// The first position of a character from `i` on, or the end.
pub open spec fn position_of(s: Seq<char>, c: char, i: int) -> int
    decreases s.len() - i,
{
    if 0 <= i < s.len() && s[i] != c {
        position_of(s, c, i + 1)
    } else {
        i
    }
}

/// What stands before and after the first of a separator, if there is one.
pub open spec fn split_at_first(s: Seq<char>, c: char) -> Option<(Seq<char>, Seq<char>)> {
    let i = position_of(s, c, 0);
    if i < s.len() {
        Some((s.take(i), s.skip(i + 1)))
    } else {
        None
    }
}

/// What stands before and after the first of a separator, if there is one.
pub fn split_once(s: &str, c: char) -> (r: Option<(String, String)>)
    ensures
        match split_at_first(s@, c) {
            Some((a, b)) => r matches Some(p) && p.0@ == a && p.1@ == b,
            None => r is None,
        },
{
    let chars = chars_of(s);
    let mut i: usize = 0;
    while i < chars.len() && chars[i] != c
        invariant
            chars@ == s@,
            i <= s@.len(),
            position_of(s@, c, 0) == position_of(s@, c, i as int),
        decreases s@.len() - i,
    {
        i = i + 1;
    }
    if i == chars.len() {
        return None;
    }
    let before = string_of(slice_subrange(chars.as_slice(), 0, i));
    let after = string_of(slice_subrange(chars.as_slice(), i + 1, chars.len()));
    assert(before@ =~= s@.take(i as int));
    assert(after@ =~= s@.skip(i + 1));
    Some((before, after))
}

/// What follows the last of a separator, or everything if there is none.
pub open spec fn after_last(s: Seq<char>, c: char) -> Seq<char>
    decreases s.len(),
{
    if s.len() == 0 || s.last() == c {
        Seq::empty()
    } else {
        after_last(s.drop_last(), c).push(s.last())
    }
}

/// What follows the last of a separator, or everything if there is none.
pub fn tail_after(s: &str, c: char) -> (t: String)
    ensures
        t@ == after_last(s@, c),
{
    let chars = chars_of(s);
    let mut start: usize = chars.len();
    let ghost whole = s@;
    assert(whole.subrange(0, whole.len() as int) =~= whole);
    assert(whole.skip(whole.len() as int) =~= Seq::<char>::empty());
    while start > 0 && chars[start - 1] != c
        invariant
            chars@ == whole,
            whole == s@,
            start <= whole.len(),
            after_last(whole, c) == after_last(whole.take(start as int), c) + whole.skip(
                start as int,
            ),
        decreases start,
    {
        proof {
            let before = whole.take(start as int);
            assert(before.drop_last() =~= whole.take(start - 1));
            assert(after_last(whole.take(start - 1), c) + whole.skip(start - 1) =~= after_last(
                before,
                c,
            ) + whole.skip(start as int));
        }
        start = start - 1;
    }
    assert(after_last(whole.take(start as int), c) =~= Seq::<char>::empty());
    assert(after_last(whole, c) =~= whole.skip(start as int));
    let t = string_of(slice_subrange(chars.as_slice(), start, chars.len()));
    assert(t@ =~= whole.skip(start as int));
    t
}

/// Is every character a decimal digit?
pub open spec fn all_digits(s: Seq<char>) -> bool {
    forall|i: int| 0 <= i < s.len() ==> '0' <= #[trigger] s[i] <= '9'
}

/// The number that digits spell.
pub open spec fn digits_value(s: Seq<char>) -> nat
    decreases s.len(),
{
    if s.len() == 0 {
        0
    } else {
        digits_value(s.drop_last()) * 10 + (s.last() as nat - '0' as nat) as nat
    }
}

/// The number that digits spell, if there are any and it is at most `max`.
pub open spec fn digits_in(s: Seq<char>, max: nat) -> Option<nat> {
    if s.len() > 0 && all_digits(s) && digits_value(s) <= max {
        Some(digits_value(s))
    } else {
        None
    }
}

proof fn lemma_digits_grow(s: Seq<char>, i: int)
    requires
        0 <= i <= s.len(),
        all_digits(s),
    ensures
        digits_value(s.take(i)) <= digits_value(s),
    decreases s.len(),
{
    if i == s.len() {
        assert(s.take(i) =~= s);
    } else {
        let init = s.drop_last();
        assert forall|k: int| 0 <= k < init.len() implies '0' <= #[trigger] init[k] <= '9' by {
            assert(init[k] == s[k]);
        }
        lemma_digits_grow(init, i);
        assert(init.take(i) =~= s.take(i));
    }
}

/// The number that digits spell, if there are any and it is at most `max`.
pub(crate) fn read_digits(chars: &[char], max: u64) -> (r: Option<u64>)
    ensures
        match r {
            Some(n) => digits_in(chars@, max as nat) == Some(n as nat),
            None => digits_in(chars@, max as nat) is None,
        },
{
    if chars.len() == 0 {
        return None;
    }
    let mut n: u128 = 0;
    let mut i: usize = 0;
    assert(chars@.take(0) =~= Seq::<char>::empty());
    while i < chars.len()
        invariant
            i <= chars@.len(),
            n <= max,
            n == digits_value(chars@.take(i as int)),
            forall|k: int| 0 <= k < i ==> '0' <= #[trigger] chars@[k] <= '9',
        decreases chars@.len() - i,
    {
        let c = chars[i];
        if c < '0' || c > '9' {
            return None;
        }
        proof {
            let next = chars@.take(i + 1);
            assert(next.drop_last() =~= chars@.take(i as int));
            if all_digits(chars@) {
                lemma_digits_grow(chars@, i + 1);
            }
        }
        n = n * 10 + digit_value(c) as u128;
        i = i + 1;
        if n > max as u128 {
            return None;
        }
    }
    assert(chars@.take(i as int) =~= chars@);
    Some(n as u64)
}

fn digit_value(c: char) -> (d: u64)
    requires
        '0' <= c <= '9',
    ensures
        d == c as nat - '0' as nat,
        d <= 9,
{
    c as u64 - 48
}

/// The number that a text spells, with or without a plus sign, if it is at most `max`.
pub open spec fn unsigned_in(s: Seq<char>, max: nat) -> Option<nat> {
    if s.len() > 0 && s[0] == '+' {
        digits_in(s.skip(1), max)
    } else {
        digits_in(s, max)
    }
}

/// The number that a text spells, with or without a plus sign, if it is at most `max`.
pub fn read_unsigned(s: &str, max: u64) -> (r: Option<u64>)
    ensures
        match r {
            Some(n) => unsigned_in(s@, max as nat) == Some(n as nat),
            None => unsigned_in(s@, max as nat) is None,
        },
{
    let chars = chars_of(s);
    if chars.len() > 0 && chars[0] == '+' {
        let rest = slice_subrange(chars.as_slice(), 1, chars.len());
        assert(rest@ =~= s@.skip(1));
        return read_digits(rest, max);
    }
    read_digits(chars.as_slice(), max)
}

/// The number that a text spells, with or without a sign, if it fits.
pub open spec fn signed_in(s: Seq<char>) -> Option<int> {
    if s.len() > 0 && s[0] == '-' {
        match digits_in(s.skip(1), 0x8000_0000) {
            Some(n) => Some(-n),
            None => None,
        }
    } else {
        match unsigned_in(s, 0x7fff_ffff) {
            Some(n) => Some(n as int),
            None => None,
        }
    }
}

/// The number that a text spells, with or without a sign, if it fits.
pub fn read_signed(s: &str) -> (r: Option<i32>)
    ensures
        match r {
            Some(n) => signed_in(s@) == Some(n as int),
            None => signed_in(s@) is None,
        },
{
    let chars = chars_of(s);
    if chars.len() > 0 && chars[0] == '-' {
        let rest = slice_subrange(chars.as_slice(), 1, chars.len());
        assert(rest@ =~= s@.skip(1));
        return match read_digits(rest, 0x8000_0000) {
            Some(n) => Some((0 - n as i64) as i32),
            None => None,
        };
    }
    match read_unsigned(s, 0x7fff_ffff) {
        Some(n) => Some(n as i32),
        None => None,
    }
}

/// A copy of some words.
pub fn copy_words(words: &[String]) -> (copy: Vec<String>)
    ensures
        views(copy@) == views(words@),
{
    let mut copy: Vec<String> = Vec::new();
    let mut i: usize = 0;
    assert(views(copy@) =~= views(words@).subrange(0, 0));
    while i < words.len()
        invariant
            i <= words@.len(),
            views(copy@) == views(words@).subrange(0, i as int),
        decreases words@.len() - i,
    {
        copy.push(words[i].clone());
        i = i + 1;
        assert(views(copy@) =~= views(words@).subrange(0, i as int));
    }
    assert(views(words@).subrange(0, i as int) =~= views(words@));
    copy
}

} // verus!
