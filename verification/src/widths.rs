//! How many columns characters occupy.
//!
//! Width is not a private decision: both ends compute it independently and must agree,
//! or they disagree about the screen itself. It is therefore taken from the platform, as
//! a table, and not computed here.

use vstd::prelude::*;

verus! {

/// A run of characters that occupy the same number of columns: 0 for those that combine
/// into the preceding cell, otherwise 1 or 2.
#[derive(Debug, Clone, Copy, PartialEq, Eq, Structural)]
pub struct WidthRange {
    pub first: u32,
    pub last: u32,
    pub columns: u8,
}

/// The columns of the first range from `i` on that holds `c`. A character in none of them
/// is not printable.
pub open spec fn width_in(ranges: Seq<WidthRange>, c: char, i: int) -> Option<u8>
    decreases ranges.len() - i,
{
    if i < 0 || i >= ranges.len() {
        None
    } else if ranges[i].first <= c as u32 <= ranges[i].last {
        Some(ranges[i].columns)
    } else {
        width_in(ranges, c, i + 1)
    }
}

/// Which characters are printable, and how many columns they occupy.
#[derive(Debug)]
pub struct Widths {
    ranges: Vec<WidthRange>,
}

impl View for Widths {
    type V = Seq<WidthRange>;

    closed spec fn view(&self) -> Seq<WidthRange> {
        self.ranges@
    }
}

impl Widths {
    /// The widths that a list of ranges gives.
    pub fn new(ranges: Vec<WidthRange>) -> (w: Widths)
        ensures
            w@ == ranges@,
    {
        Widths { ranges }
    }

    /// Columns a character occupies: `None` if it is not printable, otherwise 0, 1 or 2.
    ///
    /// 0 means the character combines into the preceding cell rather than claiming one.
    pub fn wcwidth(&self, c: char) -> (w: Option<u8>)
        ensures
            w == width_in(self@, c, 0),
    {
        let mut i: usize = 0;
        while i < self.ranges.len()
            invariant
                i <= self.ranges.len(),
                width_in(self@, c, 0) == width_in(self@, c, i as int),
            decreases self.ranges.len() - i,
        {
            let r = self.ranges[i];
            if r.first <= c as u32 && c as u32 <= r.last {
                return Some(r.columns);
            }
            i = i + 1;
        }
        None
    }
}

/// Every printable ASCII character, one column each.
pub open spec fn ascii_ranges() -> Seq<WidthRange> {
    seq![WidthRange { first: 0x20, last: 0x7e, columns: 1 }]
}

impl Default for Widths {
    /// The widths of the portable character set.
    fn default() -> (w: Self)
        ensures
            w@ == ascii_ranges(),
    {
        let ranges = vec![WidthRange { first: 0x20, last: 0x7e, columns: 1 }];
        assert(ranges@ =~= ascii_ranges());
        Widths { ranges }
    }
}

} // verus!
