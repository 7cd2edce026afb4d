//! The grid-square plausibility check used by the false-decode filters.
use vstd::prelude::*;

use crate::text::{chars_of, is_digit, is_digit_char, trim, trim_chars, upper, upper_chars};

verus! {

/// Result of checking a grid square that came with a call sign.
#[derive(Clone, Copy, Debug, Default)]
pub struct GridCheck {
    /// The grid lies in a region where the call sign should also be checked.
    pub lchkcall: bool,
    /// The grid has the four-character locator shape.
    pub lgvalid: bool,
    /// The call sign contradicts the grid (never set by this check).
    pub lwrongcall: bool,
}

/// Two letters `A`..`R` followed by two digits.
pub open spec fn grid4_shape(s: Seq<char>) -> bool {
    &&& s.len() == 4
    &&& 'A' <= s[0] <= 'R'
    &&& 'A' <= s[1] <= 'R'
    &&& is_digit(s[2])
    &&& is_digit(s[3])
}

pub open spec fn in_range_spec(value: char, lo: char, hi: char) -> bool {
    lo <= value && value <= hi
}

/// The last two grid characters are `a` then `b`.
pub open spec fn pair_is(g3: char, g4: char, a: char, b: char) -> bool {
    g3 == a && g4 == b
}

/// The table of grid squares (by field and square digits) for which the
/// call sign must be looked at as well.
pub open spec fn needs_call_check(g1: char, g2: char, g3: char, g4: char) -> bool {
    if is_digit(g1) {
        true
    } else if g1 == 'A' {
        in_range_spec(g2, 'A', 'D') || g2 == 'M' || g2 == 'N' || g2 == 'Q' || g2 == 'R'
    } else if g1 == 'B' {
        in_range_spec(g2, 'A', 'F') || g2 == 'M' || g2 == 'N' || g2 == 'Q' || g2 == 'R'
    } else if g1 == 'C' {
        in_range_spec(g2, 'A', 'F') || (g2 == 'G' && g3 > '7' && g4 < '4') || (g2 == 'I' && g3 > '0' && g4 > '1')
            || in_range_spec(g2, 'J', 'L') || g2 == 'Q' || g2 == 'R'
    } else if g1 == 'D' {
        in_range_spec(g2, 'A', 'F') || in_range_spec(g2, 'H', 'J') || (g2 == 'G' && !pair_is(g3, g4, '5', '2') && !pair_is(g3, g4, '7', '3'))
            || g2 == 'Q' || g2 == 'R'
    } else if g1 == 'E' {
        in_range_spec(g2, 'A', 'B') || (g2 == 'C' && !pair_is(g3, g4, '4', '1')) || (g2 == 'F' && !pair_is(g3, g4, '9', '6'))
            || in_range_spec(g2, 'D', 'E') || (g2 == 'G' && !pair_is(g3, g4, '9', '3')) || g2 == 'H' || g2 == 'Q'
            || (g2 == 'R' && !pair_is(g3, g4, '6', '0'))
    } else if g1 == 'F' {
        in_range_spec(g2, 'A', 'C') || (g2 == 'Q' && g3 < '3') || g2 == 'R'
    } else if g1 == 'G' {
        in_range_spec(g2, 'A', 'B') || in_range_spec(g2, 'L', 'M') || (g2 == 'K' && g3 > '0') || (g2 == 'N' && g3 > '3')
            || (g2 == 'Q' && g4 > '4') || g2 == 'R'
    } else if g1 == 'H' {
        g2 == 'A' || (g2 == 'B' && !pair_is(g3, g4, '2', '2')) || g2 == 'C' || in_range_spec(g2, 'E', 'G') || g2 == 'J'
            || g2 == 'L' || g2 == 'N' || g2 == 'O' || g2 == 'R' || (g2 == 'K' && g3 < '7') || (g2 == 'M'
            && g4 < '6') || (g2 == 'Q' && g4 > '0')
    } else if g1 == 'I' {
        g2 == 'A' || in_range_spec(g2, 'C', 'E') || (g2 == 'B' && !pair_is(g3, g4, '5', '9')) || (g2 == 'F' && !pair_is(g3, g4, '3', '2'))
            || g2 == 'G' || (g2 == 'H' && g3 != '7') || (g2 == 'I' && !pair_is(g3, g4, '2', '2')) || (g2 == 'O'
            && g3 < '3') || (g2 == 'P' && g4 > '7') || (g2 == 'Q' && g4 > '1') || g2 == 'R'
    } else if g1 == 'J' {
        g2 == 'C' || (g2 == 'A' && !pair_is(g3, g4, '0', '0')) || (g2 == 'B' && !pair_is(g3, g4, '5', '9')) || (g2 == 'D'
            && !pair_is(g3, g4, '1', '5')) || g2 == 'E' || (g2 == 'F' && g3 < '8') || (g2 == 'G' && g3 < '6')
            || (g2 == 'H' && g3 < '5') || (g2 == 'I' && g3 < '2') || (g2 == 'R' && g4 > '0')
    } else if g1 == 'K' {
        in_range_spec(g2, 'A', 'B') || (g2 == 'C' && !pair_is(g3, g4, '9', '0')) || g2 == 'D' || (g2 == 'E' && !pair_is(g3, g4, '8', '3')
            && !pair_is(g3, g4, '9', '3')) || (g2 == 'F' && g4 < '5') || (g2 == 'R' && g4 > '0')
    } else if g1 == 'L' {
        in_range_spec(g2, 'A', 'D') || (g2 == 'E' && !pair_is(g3, g4, '5', '3') && !pair_is(g3, g4, '5', '4') && !pair_is(g3, g4, '6', '3'))
            || g2 == 'F' || (g2 == 'G' && g4 < '4') || (g2 == 'J' && g3 > '5') || (g2 == 'Q' && g4 < '5')
            || (g2 == 'R' && g4 > '1')
    } else if g1 == 'M' {
        in_range_spec(g2, 'A', 'C') || (g2 == 'D' && !pair_is(g3, g4, '6', '6') && !pair_is(g3, g4, '6', '7') && !pair_is(g3, g4, '4', '9'))
            || (g2 == 'E' && !pair_is(g3, g4, '4', '0') && !pair_is(g3, g4, '4', '1') && !pair_is(g3, g4, '5', '0')) || (g2 == 'F'
            && !pair_is(g3, g4, '8', '1') && !pair_is(g3, g4, '8', '2')) || g2 == 'G' || (g2 == 'H' && !pair_is(g3, g4, '1', '0'))
            || (g2 == 'I' && g3 < '5') || (g2 == 'J' && g3 < '6') || (g2 == 'K' && g3 < '5') || (g2 == 'R'
            && g4 > '1')
    } else if g1 == 'N' {
        in_range_spec(g2, 'A', 'G') || (g2 == 'H' && !pair_is(g3, g4, '8', '7') && !pair_is(g3, g4, '8', '8')) || (g2 == 'I' && g3
            < '9' && !pair_is(g3, g4, '8', '9')) || (g2 == 'J' && g3 > '0' && g3 < '6') || (g2 == 'R' && g4 > '1')
    } else if g1 == 'O' {
        in_range_spec(g2, 'A', 'E') || (g2 == 'F' && g3 < '7') || (g2 == 'G' && g3 < '6') || (g2 == 'H' && !pair_is(g3, g4, '9', '0')
            && !pair_is(g3, g4, '9', '2') && !pair_is(g3, g4, '2', '9') && !pair_is(g3, g4, '9', '9')) || g2 == 'R'
    } else if g1 == 'P' {
        in_range_spec(g2, 'A', 'E') || (g2 == 'F' && g4 < '2') || (g2 == 'K' && g3 > '3' && !pair_is(g3, g4, '9', '0')) || (g2
            == 'Q' && g4 > '6') || g2 == 'R'
    } else if g1 == 'Q' {
        in_range_spec(g2, 'A', 'C') || (g2 == 'D' && !pair_is(g3, g4, '9', '4') && !pair_is(g3, g4, '9', '5')) || (g2 == 'E' && g4 < '6')
            || (g2 == 'F' && g3 > '6' && !pair_is(g3, g4, '9', '8')) || (g2 == 'K' && g3 > '2' && !pair_is(g3, g4, '3', '6'))
            || (g2 == 'L' && g3 > '2' && !pair_is(g3, g4, '6', '4') && !pair_is(g3, g4, '7', '4')) || (g2 == 'M' && g3 > '0'
            && !pair_is(g3, g4, '1', '9')) || (g2 == 'N' && g3 > '7') || (g2 == 'Q' && g4 > '7') || g2 == 'R'
    } else if g1 == 'R' {
        in_range_spec(g2, 'A', 'C') || (g2 == 'D' && !pair_is(g3, g4, '4', '7') && !pair_is(g3, g4, '2', '9') && !pair_is(g3, g4, '3', '9'))
            || (g2 == 'K' && g4 > '4' && !pair_is(g3, g4, '3', '9')) || in_range_spec(g2, 'L', 'N') || (g2 == 'O' && g4 == '0')
            || (g2 == 'Q' && g4 > '1') || g2 == 'R'
    } else {
        false
    }
}

/// All characters lie below 0x80.
pub open spec fn ascii_chars(s: Seq<char>) -> bool {
    forall|i: int| 0 <= i < s.len() ==> (s[i] as u32) < 0x80
}

/// Four-character grid with letters `A`..`R` and two digits.
pub fn is_grid4(grid: &str) -> (r: bool)
    ensures
        r == grid4_shape(grid@),
{
    let g = chars_of(grid);
    is_grid4_chars(&g)
}

pub fn is_grid4_chars(g: &[char]) -> (r: bool)
    ensures
        r == grid4_shape(g@),
{
    g.len() == 4 && 'A' <= g[0] && g[0] <= 'R' && 'A' <= g[1] && g[1] <= 'R' && '0' <= g[2]
        && g[2] <= '9' && '0' <= g[3] && g[3] <= '9'
}

pub fn in_range(value: char, lo: char, hi: char) -> (r: bool)
    ensures
        r == in_range_spec(value, lo, hi),
{
    value >= lo && value <= hi
}

fn pair_eq(g3: char, g4: char, a: char, b: char) -> (r: bool)
    ensures
        r == pair_is(g3, g4, a, b),
{
    g3 == a && g4 == b
}

/// The characters read from a grid are plain ASCII: the first four, or all
/// of a shorter one.
pub open spec fn ascii_head(s: Seq<char>) -> bool {
    forall|i: int| 0 <= i < s.len() && i < 4 ==> (s[i] as u32) < 0x80
}

/// Whether the call sign should be checked against a grid: never for a
/// grid shorter than four characters; otherwise its first four characters
/// are read as the table `needs_call_check` lists them.
pub fn grid_requires_call_check(grid: &[char]) -> (r: bool)
    requires
        ascii_head(grid@),
    ensures
        r == (grid@.len() >= 4 && needs_call_check(grid@[0], grid@[1], grid@[2], grid@[3])),
{
    if grid.len() < 4 {
        return false;
    }
    let g1 = grid[0];
    let g2 = grid[1];
    let g3 = grid[2];
    let g4 = grid[3];
    if is_digit_char(g1) {
        true
    } else if g1 == 'A' {
        in_range(g2, 'A', 'D') || g2 == 'M' || g2 == 'N' || g2 == 'Q' || g2 == 'R'
    } else if g1 == 'B' {
        in_range(g2, 'A', 'F') || g2 == 'M' || g2 == 'N' || g2 == 'Q' || g2 == 'R'
    } else if g1 == 'C' {
        in_range(g2, 'A', 'F') || (g2 == 'G' && g3 > '7' && g4 < '4') || (g2 == 'I' && g3 > '0' && g4 > '1')
            || in_range(g2, 'J', 'L') || g2 == 'Q' || g2 == 'R'
    } else if g1 == 'D' {
        in_range(g2, 'A', 'F') || in_range(g2, 'H', 'J') || (g2 == 'G' && !pair_eq(g3, g4, '5', '2') && !pair_eq(g3, g4, '7', '3'))
            || g2 == 'Q' || g2 == 'R'
    } else if g1 == 'E' {
        in_range(g2, 'A', 'B') || (g2 == 'C' && !pair_eq(g3, g4, '4', '1')) || (g2 == 'F' && !pair_eq(g3, g4, '9', '6'))
            || in_range(g2, 'D', 'E') || (g2 == 'G' && !pair_eq(g3, g4, '9', '3')) || g2 == 'H' || g2 == 'Q'
            || (g2 == 'R' && !pair_eq(g3, g4, '6', '0'))
    } else if g1 == 'F' {
        in_range(g2, 'A', 'C') || (g2 == 'Q' && g3 < '3') || g2 == 'R'
    } else if g1 == 'G' {
        in_range(g2, 'A', 'B') || in_range(g2, 'L', 'M') || (g2 == 'K' && g3 > '0') || (g2 == 'N' && g3 > '3')
            || (g2 == 'Q' && g4 > '4') || g2 == 'R'
    } else if g1 == 'H' {
        g2 == 'A' || (g2 == 'B' && !pair_eq(g3, g4, '2', '2')) || g2 == 'C' || in_range(g2, 'E', 'G') || g2 == 'J'
            || g2 == 'L' || g2 == 'N' || g2 == 'O' || g2 == 'R' || (g2 == 'K' && g3 < '7') || (g2 == 'M'
            && g4 < '6') || (g2 == 'Q' && g4 > '0')
    } else if g1 == 'I' {
        g2 == 'A' || in_range(g2, 'C', 'E') || (g2 == 'B' && !pair_eq(g3, g4, '5', '9')) || (g2 == 'F' && !pair_eq(g3, g4, '3', '2'))
            || g2 == 'G' || (g2 == 'H' && g3 != '7') || (g2 == 'I' && !pair_eq(g3, g4, '2', '2')) || (g2 == 'O'
            && g3 < '3') || (g2 == 'P' && g4 > '7') || (g2 == 'Q' && g4 > '1') || g2 == 'R'
    } else if g1 == 'J' {
        g2 == 'C' || (g2 == 'A' && !pair_eq(g3, g4, '0', '0')) || (g2 == 'B' && !pair_eq(g3, g4, '5', '9')) || (g2 == 'D'
            && !pair_eq(g3, g4, '1', '5')) || g2 == 'E' || (g2 == 'F' && g3 < '8') || (g2 == 'G' && g3 < '6')
            || (g2 == 'H' && g3 < '5') || (g2 == 'I' && g3 < '2') || (g2 == 'R' && g4 > '0')
    } else if g1 == 'K' {
        in_range(g2, 'A', 'B') || (g2 == 'C' && !pair_eq(g3, g4, '9', '0')) || g2 == 'D' || (g2 == 'E' && !pair_eq(g3, g4, '8', '3')
            && !pair_eq(g3, g4, '9', '3')) || (g2 == 'F' && g4 < '5') || (g2 == 'R' && g4 > '0')
    } else if g1 == 'L' {
        in_range(g2, 'A', 'D') || (g2 == 'E' && !pair_eq(g3, g4, '5', '3') && !pair_eq(g3, g4, '5', '4') && !pair_eq(g3, g4, '6', '3'))
            || g2 == 'F' || (g2 == 'G' && g4 < '4') || (g2 == 'J' && g3 > '5') || (g2 == 'Q' && g4 < '5')
            || (g2 == 'R' && g4 > '1')
    } else if g1 == 'M' {
        in_range(g2, 'A', 'C') || (g2 == 'D' && !pair_eq(g3, g4, '6', '6') && !pair_eq(g3, g4, '6', '7') && !pair_eq(g3, g4, '4', '9'))
            || (g2 == 'E' && !pair_eq(g3, g4, '4', '0') && !pair_eq(g3, g4, '4', '1') && !pair_eq(g3, g4, '5', '0')) || (g2 == 'F'
            && !pair_eq(g3, g4, '8', '1') && !pair_eq(g3, g4, '8', '2')) || g2 == 'G' || (g2 == 'H' && !pair_eq(g3, g4, '1', '0'))
            || (g2 == 'I' && g3 < '5') || (g2 == 'J' && g3 < '6') || (g2 == 'K' && g3 < '5') || (g2 == 'R'
            && g4 > '1')
    } else if g1 == 'N' {
        in_range(g2, 'A', 'G') || (g2 == 'H' && !pair_eq(g3, g4, '8', '7') && !pair_eq(g3, g4, '8', '8')) || (g2 == 'I' && g3
            < '9' && !pair_eq(g3, g4, '8', '9')) || (g2 == 'J' && g3 > '0' && g3 < '6') || (g2 == 'R' && g4 > '1')
    } else if g1 == 'O' {
        in_range(g2, 'A', 'E') || (g2 == 'F' && g3 < '7') || (g2 == 'G' && g3 < '6') || (g2 == 'H' && !pair_eq(g3, g4, '9', '0')
            && !pair_eq(g3, g4, '9', '2') && !pair_eq(g3, g4, '2', '9') && !pair_eq(g3, g4, '9', '9')) || g2 == 'R'
    } else if g1 == 'P' {
        in_range(g2, 'A', 'E') || (g2 == 'F' && g4 < '2') || (g2 == 'K' && g3 > '3' && !pair_eq(g3, g4, '9', '0')) || (g2
            == 'Q' && g4 > '6') || g2 == 'R'
    } else if g1 == 'Q' {
        in_range(g2, 'A', 'C') || (g2 == 'D' && !pair_eq(g3, g4, '9', '4') && !pair_eq(g3, g4, '9', '5')) || (g2 == 'E' && g4 < '6')
            || (g2 == 'F' && g3 > '6' && !pair_eq(g3, g4, '9', '8')) || (g2 == 'K' && g3 > '2' && !pair_eq(g3, g4, '3', '6'))
            || (g2 == 'L' && g3 > '2' && !pair_eq(g3, g4, '6', '4') && !pair_eq(g3, g4, '7', '4')) || (g2 == 'M' && g3 > '0'
            && !pair_eq(g3, g4, '1', '9')) || (g2 == 'N' && g3 > '7') || (g2 == 'Q' && g4 > '7') || g2 == 'R'
    } else if g1 == 'R' {
        in_range(g2, 'A', 'C') || (g2 == 'D' && !pair_eq(g3, g4, '4', '7') && !pair_eq(g3, g4, '2', '9') && !pair_eq(g3, g4, '3', '9'))
            || (g2 == 'K' && g4 > '4' && !pair_eq(g3, g4, '3', '9')) || in_range(g2, 'L', 'N') || (g2 == 'O' && g4 == '0')
            || (g2 == 'Q' && g4 > '1') || g2 == 'R'
    } else {
        false
    }

}

/// Checks the grid reported by `callsign`: the grid is trimmed and upper-cased,
/// is valid when it has the locator shape, and asks for a call-sign check
/// when it is valid and listed in `needs_call_check`.
pub fn chkgrid(callsign: &str, grid: &str) -> (r: GridCheck)
    ensures
        ({
            let g = upper(trim(grid@));
            &&& r.lgvalid == grid4_shape(g)
            &&& r.lchkcall == (grid4_shape(g) && needs_call_check(g[0], g[1], g[2], g[3]))
            &&& !r.lwrongcall
        }),
{
    let raw = chars_of(grid);
    let trimmed = trim_chars(&raw);
    let g = upper_chars(&trimmed);
    let grid4 = is_grid4_chars(&g);
    let lchkcall = if grid4 {
        proof {
            assert(ascii_chars(g@));
        }
        grid_requires_call_check(&g)
    } else {
        false
    };
    GridCheck { lchkcall, lgvalid: grid4, lwrongcall: false }
}

} // verus!
