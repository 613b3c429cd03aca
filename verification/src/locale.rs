//! What the name of a locale's codeset says.

use vstd::prelude::*;
use vstd::string::*;

use crate::text::chars_of;

verus! {

/// The lower-case form of an ASCII letter; any other character as it is.
pub open spec fn ascii_lower(c: char) -> char {
    if 'A' <= c <= 'Z' {
        (c as u32 + 32) as char
    } else {
        c
    }
}

/// Are two texts the same, whatever case their ASCII letters are in?
pub open spec fn same_but_for_case(a: Seq<char>, b: Seq<char>) -> bool {
    &&& a.len() == b.len()
    &&& forall|i: int| 0 <= i < a.len() ==> ascii_lower(#[trigger] a[i]) == ascii_lower(b[i])
}

fn to_ascii_lower(c: char) -> (l: u32)
    ensures
        l == ascii_lower(c) as u32,
{
    let n: u32 = c as u32;
    if 0x41 <= n && n <= 0x5a {
        n + 32
    } else {
        n
    }
}

fn eq_but_for_case(a: &str, b: &str) -> (r: bool)
    ensures
        r == same_but_for_case(a@, b@),
{
    let (x, y) = (chars_of(a), chars_of(b));
    if x.len() != y.len() {
        return false;
    }
    let mut i: usize = 0;
    while i < x.len()
        invariant
            x@ == a@,
            y@ == b@,
            x.len() == y.len(),
            i <= x.len(),
            forall|k: int| 0 <= k < i ==> ascii_lower(#[trigger] a@[k]) == ascii_lower(b@[k]),
        decreases x.len() - i,
    {
        if to_ascii_lower(x[i]) != to_ascii_lower(y[i]) {
            assert(ascii_lower(a@[i as int]) != ascii_lower(b@[i as int]));
            return false;
        }
        i = i + 1;
    }
    true
}

/// Does a locale with this codeset encode text as UTF-8?
pub fn is_utf8_locale(codeset: &str) -> (b: bool)
    ensures
        b == (same_but_for_case(codeset@, "UTF-8"@) || same_but_for_case(codeset@, "UTF8"@)),
{
    eq_but_for_case(codeset, "UTF-8") || eq_but_for_case(codeset, "UTF8")
}

} // verus!
