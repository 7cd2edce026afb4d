//! The table of grid squares that ask for a call-sign check, field by
//! field: each field of the locator grid lists the rectangle of squares
//! that ask, less a few exceptions.
use vstd::prelude::*;
use crate::chkgrid::needs_call_check;
use crate::text::is_digit;

verus! {

/// The squares of a field that ask for a call-sign check: those whose
/// digits `d3 d4` lie in the rectangle `lo3..=hi3` by `lo4..=hi4`, except
/// the listed squares (as `10 * d3 + d4`).
pub open spec fn squares(lo3: int, hi3: int, lo4: int, hi4: int, except: Set<int>) -> Option<(int, int, int, int, Set<int>)> {
    Some((lo3, hi3, lo4, hi4, except))
}

/// Every square of the field asks for a call-sign check.
pub open spec fn all_squares() -> Option<(int, int, int, int, Set<int>)> {
    squares(0, 9, 0, 9, Set::empty())
}

/// No square of the field asks for a call-sign check.
pub open spec fn no_square() -> Option<(int, int, int, int, Set<int>)> {
    None
}

/// Whether square `d3 d4` is one the rule lists.
pub open spec fn rule_flags(rule: Option<(int, int, int, int, Set<int>)>, d3: int, d4: int) -> bool {
    match rule {
        Some((lo3, hi3, lo4, hi4, except)) => lo3 <= d3 <= hi3 && lo4 <= d4 <= hi4 && !except.contains(10 * d3 + d4),
        None => false,
    }
}

/// The value of a digit character.
pub open spec fn digit_value(c: char) -> int {
    c as int - '0' as int
}

/// The call-sign check by field: for first letter `g1`, the rule of each
/// second letter `A` to `R`.
pub open spec fn call_check_fields(g1: char) -> Seq<Option<(int, int, int, int, Set<int>)>> {
    if g1 == 'A' {
        seq![
            all_squares(), all_squares(), all_squares(), all_squares(), no_square(), no_square(),
            no_square(), no_square(), no_square(), no_square(), no_square(), no_square(), all_squares(),
            all_squares(), no_square(), no_square(), all_squares(), all_squares(),
        ]
    } else if g1 == 'B' {
        seq![
            all_squares(), all_squares(), all_squares(), all_squares(), all_squares(), all_squares(),
            no_square(), no_square(), no_square(), no_square(), no_square(), no_square(), all_squares(),
            all_squares(), no_square(), no_square(), all_squares(), all_squares(),
        ]
    } else if g1 == 'C' {
        seq![
            all_squares(), all_squares(), all_squares(), all_squares(), all_squares(), all_squares(),
            squares(8, 9, 0, 3, Set::empty()), no_square(), squares(1, 9, 2, 9, Set::empty()), all_squares(),
            all_squares(), all_squares(), no_square(), no_square(), no_square(), no_square(), all_squares(),
            all_squares(),
        ]
    } else if g1 == 'D' {
        seq![
            all_squares(), all_squares(), all_squares(), all_squares(), all_squares(), all_squares(),
            squares(0, 9, 0, 9, set![52int, 73]), all_squares(), all_squares(), all_squares(), no_square(),
            no_square(), no_square(), no_square(), no_square(), no_square(), all_squares(), all_squares(),
        ]
    } else if g1 == 'E' {
        seq![
            all_squares(), all_squares(), squares(0, 9, 0, 9, set![41int]), all_squares(), all_squares(),
            squares(0, 9, 0, 9, set![96int]), squares(0, 9, 0, 9, set![93int]), all_squares(), no_square(),
            no_square(), no_square(), no_square(), no_square(), no_square(), no_square(), no_square(),
            all_squares(), squares(0, 9, 0, 9, set![60int]),
        ]
    } else if g1 == 'F' {
        seq![
            all_squares(), all_squares(), all_squares(), no_square(), no_square(), no_square(), no_square(),
            no_square(), no_square(), no_square(), no_square(), no_square(), no_square(), no_square(),
            no_square(), no_square(), squares(0, 2, 0, 9, Set::empty()), all_squares(),
        ]
    } else if g1 == 'G' {
        seq![
            all_squares(), all_squares(), no_square(), no_square(), no_square(), no_square(), no_square(),
            no_square(), no_square(), no_square(), squares(1, 9, 0, 9, Set::empty()), all_squares(),
            all_squares(), squares(4, 9, 0, 9, Set::empty()), no_square(), no_square(),
            squares(0, 9, 5, 9, Set::empty()), all_squares(),
        ]
    } else if g1 == 'H' {
        seq![
            all_squares(), squares(0, 9, 0, 9, set![22int]), all_squares(), no_square(), all_squares(),
            all_squares(), all_squares(), no_square(), no_square(), all_squares(),
            squares(0, 6, 0, 9, Set::empty()), all_squares(), squares(0, 9, 0, 5, Set::empty()),
            all_squares(), all_squares(), no_square(), squares(0, 9, 1, 9, Set::empty()), all_squares(),
        ]
    } else if g1 == 'I' {
        seq![
            all_squares(), squares(0, 9, 0, 9, set![59int]), all_squares(), all_squares(), all_squares(),
            squares(0, 9, 0, 9, set![32int]), all_squares(),
            squares(0, 9, 0, 9, set![70int, 71, 72, 73, 74, 75, 76, 77, 78, 79]),
            squares(0, 9, 0, 9, set![22int]), no_square(), no_square(), no_square(), no_square(),
            no_square(), squares(0, 2, 0, 9, Set::empty()), squares(0, 9, 8, 9, Set::empty()),
            squares(0, 9, 2, 9, Set::empty()), all_squares(),
        ]
    } else if g1 == 'J' {
        seq![
            squares(0, 9, 0, 9, set![0int]), squares(0, 9, 0, 9, set![59int]), all_squares(),
            squares(0, 9, 0, 9, set![15int]), all_squares(), squares(0, 7, 0, 9, Set::empty()),
            squares(0, 5, 0, 9, Set::empty()), squares(0, 4, 0, 9, Set::empty()),
            squares(0, 1, 0, 9, Set::empty()), no_square(), no_square(), no_square(), no_square(),
            no_square(), no_square(), no_square(), no_square(), squares(0, 9, 1, 9, Set::empty()),
        ]
    } else if g1 == 'K' {
        seq![
            all_squares(), all_squares(), squares(0, 9, 0, 9, set![90int]), all_squares(),
            squares(0, 9, 0, 9, set![83int, 93]), squares(0, 9, 0, 4, Set::empty()), no_square(),
            no_square(), no_square(), no_square(), no_square(), no_square(), no_square(), no_square(),
            no_square(), no_square(), no_square(), squares(0, 9, 1, 9, Set::empty()),
        ]
    } else if g1 == 'L' {
        seq![
            all_squares(), all_squares(), all_squares(), all_squares(),
            squares(0, 9, 0, 9, set![53int, 54, 63]), all_squares(), squares(0, 9, 0, 3, Set::empty()),
            no_square(), no_square(), squares(6, 9, 0, 9, Set::empty()), no_square(), no_square(),
            no_square(), no_square(), no_square(), no_square(), squares(0, 9, 0, 4, Set::empty()),
            squares(0, 9, 2, 9, Set::empty()),
        ]
    } else if g1 == 'M' {
        seq![
            all_squares(), all_squares(), all_squares(), squares(0, 9, 0, 9, set![49int, 66, 67]),
            squares(0, 9, 0, 9, set![40int, 41, 50]), squares(0, 9, 0, 9, set![81int, 82]), all_squares(),
            squares(0, 9, 0, 9, set![10int]), squares(0, 4, 0, 9, Set::empty()),
            squares(0, 5, 0, 9, Set::empty()), squares(0, 4, 0, 9, Set::empty()), no_square(), no_square(),
            no_square(), no_square(), no_square(), no_square(), squares(0, 9, 2, 9, Set::empty()),
        ]
    } else if g1 == 'N' {
        seq![
            all_squares(), all_squares(), all_squares(), all_squares(), all_squares(), all_squares(),
            all_squares(), squares(0, 9, 0, 9, set![87int, 88]), squares(0, 8, 0, 9, set![89int]),
            squares(1, 5, 0, 9, Set::empty()), no_square(), no_square(), no_square(), no_square(),
            no_square(), no_square(), no_square(), squares(0, 9, 2, 9, Set::empty()),
        ]
    } else if g1 == 'O' {
        seq![
            all_squares(), all_squares(), all_squares(), all_squares(), all_squares(),
            squares(0, 6, 0, 9, Set::empty()), squares(0, 5, 0, 9, Set::empty()),
            squares(0, 9, 0, 9, set![29int, 90, 92, 99]), no_square(), no_square(), no_square(), no_square(),
            no_square(), no_square(), no_square(), no_square(), no_square(), all_squares(),
        ]
    } else if g1 == 'P' {
        seq![
            all_squares(), all_squares(), all_squares(), all_squares(), all_squares(),
            squares(0, 9, 0, 1, Set::empty()), no_square(), no_square(), no_square(), no_square(),
            squares(4, 9, 0, 9, set![90int]), no_square(), no_square(), no_square(), no_square(),
            no_square(), squares(0, 9, 7, 9, Set::empty()), all_squares(),
        ]
    } else if g1 == 'Q' {
        seq![
            all_squares(), all_squares(), all_squares(), squares(0, 9, 0, 9, set![94int, 95]),
            squares(0, 9, 0, 5, Set::empty()), squares(7, 9, 0, 9, set![98int]), no_square(), no_square(),
            no_square(), no_square(), squares(3, 9, 0, 9, set![36int]), squares(3, 9, 0, 9, set![64int, 74]),
            squares(1, 9, 0, 9, set![19int]), squares(8, 9, 0, 9, Set::empty()), no_square(), no_square(),
            squares(0, 9, 8, 9, Set::empty()), all_squares(),
        ]
    } else if g1 == 'R' {
        seq![
            all_squares(), all_squares(), all_squares(), squares(0, 9, 0, 9, set![29int, 39, 47]),
            no_square(), no_square(), no_square(), no_square(), no_square(), no_square(),
            squares(0, 9, 5, 9, set![39int]), all_squares(), all_squares(), all_squares(),
            squares(0, 9, 0, 0, Set::empty()), no_square(), squares(0, 9, 2, 9, Set::empty()), all_squares(),
        ]
    } else {
        Seq::empty()
    }
}

proof fn lemma_call_check_row_a(g2: char, d3: char, d4: char)
    requires
        'A' <= g2 <= 'R',
        is_digit(d3),
        is_digit(d4),
    ensures
        needs_call_check('A', g2, d3, d4) == rule_flags(
            call_check_fields('A')[g2 as int - 'A' as int],
            digit_value(d3),
            digit_value(d4),
        ),
{
}

proof fn lemma_call_check_row_b(g2: char, d3: char, d4: char)
    requires
        'A' <= g2 <= 'R',
        is_digit(d3),
        is_digit(d4),
    ensures
        needs_call_check('B', g2, d3, d4) == rule_flags(
            call_check_fields('B')[g2 as int - 'A' as int],
            digit_value(d3),
            digit_value(d4),
        ),
{
}

proof fn lemma_call_check_row_c(g2: char, d3: char, d4: char)
    requires
        'A' <= g2 <= 'R',
        is_digit(d3),
        is_digit(d4),
    ensures
        needs_call_check('C', g2, d3, d4) == rule_flags(
            call_check_fields('C')[g2 as int - 'A' as int],
            digit_value(d3),
            digit_value(d4),
        ),
{
}

proof fn lemma_call_check_row_d(g2: char, d3: char, d4: char)
    requires
        'A' <= g2 <= 'R',
        is_digit(d3),
        is_digit(d4),
    ensures
        needs_call_check('D', g2, d3, d4) == rule_flags(
            call_check_fields('D')[g2 as int - 'A' as int],
            digit_value(d3),
            digit_value(d4),
        ),
{
}

proof fn lemma_call_check_row_e(g2: char, d3: char, d4: char)
    requires
        'A' <= g2 <= 'R',
        is_digit(d3),
        is_digit(d4),
    ensures
        needs_call_check('E', g2, d3, d4) == rule_flags(
            call_check_fields('E')[g2 as int - 'A' as int],
            digit_value(d3),
            digit_value(d4),
        ),
{
}

proof fn lemma_call_check_row_f(g2: char, d3: char, d4: char)
    requires
        'A' <= g2 <= 'R',
        is_digit(d3),
        is_digit(d4),
    ensures
        needs_call_check('F', g2, d3, d4) == rule_flags(
            call_check_fields('F')[g2 as int - 'A' as int],
            digit_value(d3),
            digit_value(d4),
        ),
{
}

proof fn lemma_call_check_row_g(g2: char, d3: char, d4: char)
    requires
        'A' <= g2 <= 'R',
        is_digit(d3),
        is_digit(d4),
    ensures
        needs_call_check('G', g2, d3, d4) == rule_flags(
            call_check_fields('G')[g2 as int - 'A' as int],
            digit_value(d3),
            digit_value(d4),
        ),
{
}

proof fn lemma_call_check_row_h(g2: char, d3: char, d4: char)
    requires
        'A' <= g2 <= 'R',
        is_digit(d3),
        is_digit(d4),
    ensures
        needs_call_check('H', g2, d3, d4) == rule_flags(
            call_check_fields('H')[g2 as int - 'A' as int],
            digit_value(d3),
            digit_value(d4),
        ),
{
}

proof fn lemma_call_check_row_i(g2: char, d3: char, d4: char)
    requires
        'A' <= g2 <= 'R',
        is_digit(d3),
        is_digit(d4),
    ensures
        needs_call_check('I', g2, d3, d4) == rule_flags(
            call_check_fields('I')[g2 as int - 'A' as int],
            digit_value(d3),
            digit_value(d4),
        ),
{
}

proof fn lemma_call_check_row_j(g2: char, d3: char, d4: char)
    requires
        'A' <= g2 <= 'R',
        is_digit(d3),
        is_digit(d4),
    ensures
        needs_call_check('J', g2, d3, d4) == rule_flags(
            call_check_fields('J')[g2 as int - 'A' as int],
            digit_value(d3),
            digit_value(d4),
        ),
{
}

proof fn lemma_call_check_row_k(g2: char, d3: char, d4: char)
    requires
        'A' <= g2 <= 'R',
        is_digit(d3),
        is_digit(d4),
    ensures
        needs_call_check('K', g2, d3, d4) == rule_flags(
            call_check_fields('K')[g2 as int - 'A' as int],
            digit_value(d3),
            digit_value(d4),
        ),
{
}

proof fn lemma_call_check_row_l(g2: char, d3: char, d4: char)
    requires
        'A' <= g2 <= 'R',
        is_digit(d3),
        is_digit(d4),
    ensures
        needs_call_check('L', g2, d3, d4) == rule_flags(
            call_check_fields('L')[g2 as int - 'A' as int],
            digit_value(d3),
            digit_value(d4),
        ),
{
}

proof fn lemma_call_check_row_m(g2: char, d3: char, d4: char)
    requires
        'A' <= g2 <= 'R',
        is_digit(d3),
        is_digit(d4),
    ensures
        needs_call_check('M', g2, d3, d4) == rule_flags(
            call_check_fields('M')[g2 as int - 'A' as int],
            digit_value(d3),
            digit_value(d4),
        ),
{
}

proof fn lemma_call_check_row_n(g2: char, d3: char, d4: char)
    requires
        'A' <= g2 <= 'R',
        is_digit(d3),
        is_digit(d4),
    ensures
        needs_call_check('N', g2, d3, d4) == rule_flags(
            call_check_fields('N')[g2 as int - 'A' as int],
            digit_value(d3),
            digit_value(d4),
        ),
{
}

proof fn lemma_call_check_row_o(g2: char, d3: char, d4: char)
    requires
        'A' <= g2 <= 'R',
        is_digit(d3),
        is_digit(d4),
    ensures
        needs_call_check('O', g2, d3, d4) == rule_flags(
            call_check_fields('O')[g2 as int - 'A' as int],
            digit_value(d3),
            digit_value(d4),
        ),
{
}

proof fn lemma_call_check_row_p(g2: char, d3: char, d4: char)
    requires
        'A' <= g2 <= 'R',
        is_digit(d3),
        is_digit(d4),
    ensures
        needs_call_check('P', g2, d3, d4) == rule_flags(
            call_check_fields('P')[g2 as int - 'A' as int],
            digit_value(d3),
            digit_value(d4),
        ),
{
}

proof fn lemma_call_check_row_q(g2: char, d3: char, d4: char)
    requires
        'A' <= g2 <= 'R',
        is_digit(d3),
        is_digit(d4),
    ensures
        needs_call_check('Q', g2, d3, d4) == rule_flags(
            call_check_fields('Q')[g2 as int - 'A' as int],
            digit_value(d3),
            digit_value(d4),
        ),
{
}

proof fn lemma_call_check_row_r(g2: char, d3: char, d4: char)
    requires
        'A' <= g2 <= 'R',
        is_digit(d3),
        is_digit(d4),
    ensures
        needs_call_check('R', g2, d3, d4) == rule_flags(
            call_check_fields('R')[g2 as int - 'A' as int],
            digit_value(d3),
            digit_value(d4),
        ),
{
}

/// The grid squares that ask for a call-sign check, field by field: square
/// `d3 d4` of field `g1 g2` asks for it exactly when the rule the table
/// `call_check_fields` gives that field lists the square. A grid that
/// starts with a digit always asks; one that starts with any other
/// character outside `A` to `R` never does.
pub proof fn lemma_call_check_by_field(g1: char, g2: char, d3: char, d4: char)
    ensures
        is_digit(g1) ==> needs_call_check(g1, g2, d3, d4),
        !is_digit(g1) && !('A' <= g1 <= 'R') ==> !needs_call_check(g1, g2, d3, d4),
        'A' <= g1 <= 'R' && 'A' <= g2 <= 'R' && is_digit(d3) && is_digit(d4) ==> needs_call_check(g1, g2, d3, d4)
            == rule_flags(call_check_fields(g1)[g2 as int - 'A' as int], digit_value(d3), digit_value(d4)),
{
    if 'A' <= g2 <= 'R' && is_digit(d3) && is_digit(d4) {
        if g1 == 'A' {
            lemma_call_check_row_a(g2, d3, d4);
        } else if g1 == 'B' {
            lemma_call_check_row_b(g2, d3, d4);
        } else if g1 == 'C' {
            lemma_call_check_row_c(g2, d3, d4);
        } else if g1 == 'D' {
            lemma_call_check_row_d(g2, d3, d4);
        } else if g1 == 'E' {
            lemma_call_check_row_e(g2, d3, d4);
        } else if g1 == 'F' {
            lemma_call_check_row_f(g2, d3, d4);
        } else if g1 == 'G' {
            lemma_call_check_row_g(g2, d3, d4);
        } else if g1 == 'H' {
            lemma_call_check_row_h(g2, d3, d4);
        } else if g1 == 'I' {
            lemma_call_check_row_i(g2, d3, d4);
        } else if g1 == 'J' {
            lemma_call_check_row_j(g2, d3, d4);
        } else if g1 == 'K' {
            lemma_call_check_row_k(g2, d3, d4);
        } else if g1 == 'L' {
            lemma_call_check_row_l(g2, d3, d4);
        } else if g1 == 'M' {
            lemma_call_check_row_m(g2, d3, d4);
        } else if g1 == 'N' {
            lemma_call_check_row_n(g2, d3, d4);
        } else if g1 == 'O' {
            lemma_call_check_row_o(g2, d3, d4);
        } else if g1 == 'P' {
            lemma_call_check_row_p(g2, d3, d4);
        } else if g1 == 'Q' {
            lemma_call_check_row_q(g2, d3, d4);
        } else if g1 == 'R' {
            lemma_call_check_row_r(g2, d3, d4);
        }
    }
}

} // verus!
