//! The message context of the JTDX hint decoder `ft8s`: whether it runs for
//! the QSO at all, what the last received message says of the QSO's state,
//! which of the 56 candidate messages it searches, and the integer checks on
//! the tone matches that refuse a candidate. The tone spectra and their
//! scores are floating point and stay outside.
use vstd::prelude::*;
use crate::text::{byte_len, byte_len_chars, chars_of, contains_chars, has_prefix, occurs_at, starts_with, trim, trim_chars};
use crate::tones::{lemma_match_count_step, match_count};

verus! {

/// What the last received message says of the QSO.
#[derive(Clone, Copy, Debug, PartialEq, Eq, Structural)]
pub struct Ft8sContext {
    pub lmycall: bool,
    pub lhiscall: bool,
    pub lrrr: bool,
    pub lr73: bool,
    pub lcallingrprt: bool,
    pub lastrrprt: bool,
    pub lastreport: bool,
    pub lgrid: bool,
}

/// `p` occurs somewhere in `s`.
pub open spec fn has_text(s: Seq<char>, p: Seq<char>) -> bool {
    exists|i: int| occurs_at(s, p, i)
}

/// The context of the hint decoder, or none when it does not run: with
/// hints stopped, without his call (three bytes or more), or after my last
/// transmission was the sixth or none. The last message counts only when
/// it starts with my call and names his: then it may be an `RRR`, an
/// `RR73` or `73`, a report or an `R` report, and else a grid. With no
/// last message and my report just sent, or a last message naming him but
/// not starting with my call, he calls with a report.
pub open spec fn ft8s_context_spec(my: Seq<char>, his: Seq<char>, nlasttx: usize, stophint: bool, last: Option<Seq<char>>) -> Option<Ft8sContext> {
    if stophint || byte_len(trim(his)) < 3 || nlasttx == 6 || nlasttx == 0 {
        None
    } else {
        let l = match last {
            Some(m) => trim(m),
            None => Seq::<char>::empty(),
        };
        let nonempty = l.len() > 0;
        let lhiscall = nonempty && has_text(l, trim(his));
        let lmycall = nonempty && has_prefix(l, trim(my));
        let both = lmycall && lhiscall;
        let lrrr = both && has_text(l, seq![' ', 'R', 'R', 'R']);
        let lr73 = both && (has_text(l, seq![' ', 'R', 'R', '7', '3']) || has_text(l, seq![' ', '7', '3']));
        let lastreport = both && (has_text(l, seq![' ', '+']) || has_text(l, seq![' ', '-']));
        let lastrrprt = both && (has_text(l, seq![' ', 'R', '+']) || has_text(l, seq![' ', 'R', '-']));
        let lgrid = last is Some && both && !lastreport && !lastrrprt && !lrrr && !lr73;
        let lcallingrprt = (!nonempty && nlasttx == 2) || (last is Some && !lmycall && lhiscall && nlasttx == 2);
        Some(Ft8sContext { lmycall, lhiscall, lrrr, lr73, lcallingrprt, lastrrprt, lastreport, lgrid })
    }
}

fn has_lit(v: &[char], lit: &[char]) -> (r: bool)
    ensures
        r == has_text(v@, lit@),
{
    contains_chars(v, lit)
}

/// The context of the hint decoder for the QSO with `hiscall`.
pub fn ft8s_context(mycall: &str, hiscall: &str, nlasttx: usize, stophint: bool, lastrxmsg: Option<&str>) -> (r: Option<Ft8sContext>)
    ensures
        r == ft8s_context_spec(mycall@, hiscall@, nlasttx, stophint, match lastrxmsg {
            Some(m) => Some(m@),
            None => None,
        }),
{
    let his = trim_chars(&chars_of(hiscall));
    if stophint || byte_len_chars(&his) < 3 || nlasttx == 6 || nlasttx == 0 {
        return None;
    }
    let my = trim_chars(&chars_of(mycall));
    let l: Vec<char> = match lastrxmsg {
        Some(m) => trim_chars(&chars_of(m)),
        None => Vec::new(),
    };
    let nonempty = l.len() > 0;
    let lhiscall = nonempty && has_lit(&l, &his);
    let lmycall = nonempty && starts_with(&l, &my);
    let both = lmycall && lhiscall;
    proof {
        assert([' ', 'R', 'R', 'R']@ == seq![' ', 'R', 'R', 'R']);
        assert([' ', 'R', 'R', '7', '3']@ == seq![' ', 'R', 'R', '7', '3']);
        assert([' ', '7', '3']@ == seq![' ', '7', '3']);
        assert([' ', '+']@ == seq![' ', '+']);
        assert([' ', '-']@ == seq![' ', '-']);
        assert([' ', 'R', '+']@ == seq![' ', 'R', '+']);
        assert([' ', 'R', '-']@ == seq![' ', 'R', '-']);
    }
    let lrrr = both && has_lit(&l, &[' ', 'R', 'R', 'R']);
    let lr73 = both && (has_lit(&l, &[' ', 'R', 'R', '7', '3']) || has_lit(&l, &[' ', '7', '3']));
    let lastreport = both && (has_lit(&l, &[' ', '+']) || has_lit(&l, &[' ', '-']));
    let lastrrprt = both && (has_lit(&l, &[' ', 'R', '+']) || has_lit(&l, &[' ', 'R', '-']));
    let some = lastrxmsg.is_some();
    let lgrid = some && both && !lastreport && !lastrrprt && !lrrr && !lr73;
    let lcallingrprt = (!nonempty && nlasttx == 2) || (some && !lmycall && lhiscall && nlasttx == 2);
    Some(Ft8sContext { lmycall, lhiscall, lrrr, lr73, lcallingrprt, lastrrprt, lastreport, lgrid })
}

/// The candidate messages searched, as a range of the 56 (reports `-01`
/// to `-26` at 0..26, `R-01` to `R-26` at 26..52, then the grid, `RRR`,
/// `RR73` and `73`): the reports after my CQ, the `R` reports and the grid
/// when he sent his grid, the `R` reports when he calls with a report, all
/// but the reports after an `R` report, the endings after `RRR` or `RR73`,
/// and else all of them.
pub open spec fn ft8s_range_spec(c: Ft8sContext, nlasttx: usize) -> (usize, usize) {
    if nlasttx == 1 {
        (0, 26)
    } else if c.lgrid {
        (26, 53)
    } else if c.lcallingrprt {
        (26, 52)
    } else if c.lastrrprt {
        (26, 56)
    } else if c.lr73 || c.lrrr {
        (53, 56)
    } else {
        (0, 56)
    }
}

pub fn ft8s_search_range(c: &Ft8sContext, nlasttx: usize) -> (r: (usize, usize))
    ensures
        r == ft8s_range_spec(*c, nlasttx),
{
    if nlasttx == 1 {
        (0, 26)
    } else if c.lgrid {
        (26, 53)
    } else if c.lcallingrprt {
        (26, 52)
    } else if c.lastrrprt {
        (26, 56)
    } else if c.lr73 || c.lrrr {
        (53, 56)
    } else {
        (0, 56)
    }
}

/// Whether candidate `i` of the range is scored: after his report the `R`
/// reports and the grid are passed over.
pub fn ft8s_considers(c: &Ft8sContext, i: usize) -> (r: bool)
    ensures
        r == !(c.lastreport && 26 <= i < 53),
{
    !(c.lastreport && i >= 26 && i < 53)
}

/// The agreeing tones of the first message with the demodulated ones over
/// my call (the first nine data symbols) and over both calls (the first
/// nineteen).
pub fn ft8s_base_matches(idtone: &[i32; 58], itonedem: &[i32; 58]) -> (r: (usize, usize))
    ensures
        r == (match_count(idtone@, itonedem@, None, 0, 9) as usize, match_count(idtone@, itonedem@, None, 0, 19) as usize),
{
    let mut nmycall: usize = 0;
    let mut nbase: usize = 0;
    let mut k: usize = 0;
    proof {
        reveal(match_count);
    }
    while k < 19
        invariant
            k <= 19,
            nbase == match_count(idtone@, itonedem@, None, 0, k as int),
            nmycall == match_count(idtone@, itonedem@, None, 0, if k < 9 { k as int } else { 9 }),
            nbase <= k,
            nmycall <= k,
        decreases 19 - k,
    {
        proof {
            lemma_match_count_step(idtone@, itonedem@, None, 0, k as int);
        }
        if idtone[k] == itonedem[k] {
            if k < 9 {
                nmycall = nmycall + 1;
            }
            nbase = nbase + 1;
        }
        k = k + 1;
    }
    (nmycall, nbase)
}

/// The integer checks after the best-matching candidate `imax` is found:
/// none of my call's tones matched after my CQ or while he calls with a
/// report; the grid or `RRR` after an `RR73`; fewer than eight parity tones.
pub open spec fn ft8s_match_rejected_spec(c: Ft8sContext, nlasttx: usize, nmycall: usize, imax: usize, ncrcpaty: usize) -> bool {
    ||| ((nlasttx == 1 || c.lcallingrprt) && nmycall == 0)
    ||| (c.lr73 && (imax == 52 || imax == 53))
    ||| ncrcpaty < 8
}

pub fn ft8s_match_rejected(c: &Ft8sContext, nlasttx: usize, nmycall: usize, imax: usize, ncrcpaty: usize) -> (r: bool)
    ensures
        r == ft8s_match_rejected_spec(*c, nlasttx, nmycall, imax, ncrcpaty),
{
    ((nlasttx == 1 || c.lcallingrprt) && nmycall == 0) || (c.lr73 && (imax == 52 || imax == 53)) || ncrcpaty < 8
}

/// The check on the best-scoring candidate `ipk`: not the grid after an
/// `R` report, and only an ending after `RR73`.
pub fn ft8s_peak_rejected(c: &Ft8sContext, ipk: usize) -> (r: bool)
    ensures
        r == ((c.lastrrprt && ipk == 52) || (c.lr73 && ipk < 54)),
{
    (c.lastrrprt && ipk == 52) || (c.lr73 && ipk < 54)
}

/// The sensitivity level used: the configured one held to 1..3, but 1
/// after my CQ or while he calls with a report.
pub fn ft8s_rx_slowness(c: &Ft8sContext, nlasttx: usize, nft8rxfsens: usize) -> (r: usize)
    ensures
        r == (if c.lcallingrprt || nlasttx == 1 {
            1
        } else if nft8rxfsens < 1 {
            1
        } else if nft8rxfsens > 3 {
            3
        } else {
            nft8rxfsens
        }),
{
    if c.lcallingrprt || nlasttx == 1 {
        1
    } else if nft8rxfsens < 1 {
        1
    } else if nft8rxfsens > 3 {
        3
    } else {
        nft8rxfsens
    }
}

} // verus!
