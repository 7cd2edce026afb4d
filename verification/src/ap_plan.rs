//! The plan of a-priori (AP) decoding: which AP types a configuration
//! tries, the call hash that marks a hashed call, and the fixed masks.
use vstd::prelude::*;
use crate::ap_subpass::ApCallFlags;
use crate::text::{byte_len, chars_of, string_of, strip_lead, strip_trail, to_upper, trim, upper};
use crate::dx_report::push_all;

verus! {

/// The AP types tried, pass by pass, when my call is standard and his is
/// standard or unset.
pub const NAPTYPES: [[i32; 27]; 6] = [
    [0, 0, 0, 0, 0, 0, 0, 0, 0, 0, 0, 0, 2, 2, 2, 1, 1, 1, 31, 31, 31, 36, 36, 36, 35, 35, 35],
    [3, 3, 3, 0, 0, 0, 0, 0, 0, 0, 0, 0, 0, 0, 0, 1, 1, 1, 31, 31, 31, 36, 36, 36, 35, 35, 35],
    [3, 3, 3, 0, 0, 0, 0, 0, 0, 0, 0, 0, 0, 0, 0, 1, 1, 1, 31, 31, 31, 36, 36, 36, 35, 35, 35],
    [3, 3, 3, 6, 6, 6, 5, 5, 5, 4, 4, 4, 0, 0, 0, 0, 0, 0, 31, 31, 31, 36, 36, 36, 35, 35, 35],
    [3, 3, 3, 6, 6, 6, 5, 5, 5, 4, 4, 4, 2, 2, 2, 0, 0, 0, 31, 31, 31, 36, 36, 36, 35, 35, 35],
    [0, 0, 0, 0, 0, 0, 0, 0, 0, 0, 0, 0, 2, 2, 2, 1, 1, 1, 31, 31, 31, 36, 36, 36, 35, 35, 35],
];

/// The AP types when my call is nonstandard.
pub const NMYCNSAPTYPES: [[i32; 27]; 6] = [
    [0, 0, 0, 0, 0, 0, 0, 0, 0, 0, 0, 0, 40, 40, 40, 1, 1, 1, 31, 31, 31, 36, 36, 36, 35, 35, 35],
    [41, 41, 41, 0, 0, 0, 0, 0, 0, 0, 0, 0, 0, 0, 0, 1, 1, 1, 31, 31, 31, 36, 36, 36, 35, 35, 35],
    [41, 41, 41, 0, 0, 0, 0, 0, 0, 0, 0, 0, 0, 0, 0, 1, 1, 1, 31, 31, 31, 36, 36, 36, 35, 35, 35],
    [41, 41, 41, 44, 44, 44, 43, 43, 43, 42, 42, 42, 0, 0, 0, 0, 0, 0, 31, 31, 31, 36, 36, 36, 35, 35, 35],
    [41, 41, 41, 44, 44, 44, 43, 43, 43, 42, 42, 42, 40, 40, 40, 0, 0, 0, 31, 31, 31, 36, 36, 36, 35, 35, 35],
    [0, 0, 0, 0, 0, 0, 0, 0, 0, 0, 0, 0, 40, 40, 40, 1, 1, 1, 31, 31, 31, 36, 36, 36, 35, 35, 35],
];

/// The AP types of a Hound.
pub const NHAPTYPES: [[i32; 27]; 6] = [
    [0, 0, 0, 0, 0, 0, 0, 0, 0, 0, 0, 0, 0, 0, 0, 1, 1, 1, 0, 0, 0, 0, 0, 0, 111, 111, 111],
    [21, 21, 21, 22, 22, 22, 0, 0, 0, 0, 0, 0, 0, 0, 0, 31, 31, 31, 0, 0, 0, 36, 36, 36, 0, 0, 0],
    [0, 0, 0, 0, 0, 0, 0, 0, 0, 0, 0, 0, 0, 0, 0, 0, 0, 0, 0, 0, 0, 0, 0, 0, 0, 0, 0],
    [21, 21, 21, 22, 22, 22, 23, 23, 23, 24, 24, 24, 0, 0, 0, 0, 0, 0, 0, 0, 0, 0, 0, 0, 0, 0, 0],
    [0, 0, 0, 0, 0, 0, 0, 0, 0, 0, 0, 0, 0, 0, 0, 0, 0, 0, 0, 0, 0, 0, 0, 0, 0, 0, 0],
    [0, 0, 0, 0, 0, 0, 0, 0, 0, 0, 0, 0, 0, 0, 0, 0, 0, 0, 0, 0, 0, 0, 0, 0, 0, 0, 0],
];

/// The AP types when his call is set but nonstandard.
pub const NDXNSAPTYPES: [[i32; 27]; 6] = [
    [0, 0, 0, 0, 0, 0, 0, 0, 0, 0, 0, 0, 2, 2, 2, 1, 1, 1, 31, 31, 31, 36, 36, 36, 35, 35, 35],
    [11, 11, 11, 0, 0, 0, 0, 0, 0, 0, 0, 0, 0, 0, 0, 1, 1, 1, 31, 31, 31, 36, 36, 36, 35, 35, 35],
    [11, 11, 11, 0, 0, 0, 0, 0, 0, 0, 0, 0, 0, 0, 0, 1, 1, 1, 31, 31, 31, 36, 36, 36, 35, 35, 35],
    [11, 11, 11, 14, 14, 14, 13, 13, 13, 12, 12, 12, 0, 0, 0, 0, 0, 0, 31, 31, 31, 36, 36, 36, 35, 35, 35],
    [11, 11, 11, 14, 14, 14, 13, 13, 13, 12, 12, 12, 2, 2, 2, 0, 0, 0, 31, 31, 31, 36, 36, 36, 35, 35, 35],
    [0, 0, 0, 0, 0, 0, 0, 0, 0, 0, 0, 0, 2, 2, 2, 1, 1, 1, 31, 31, 31, 36, 36, 36, 35, 35, 35],
];

/// The table read for a configuration.
pub open spec fn table_for(lhound: bool, f: ApCallFlags) -> [[i32; 27]; 6] {
    if lhound {
        NHAPTYPES
    } else if f.lmycallstd && (f.lhiscallstd || f.lnohiscall) {
        NAPTYPES
    } else if f.lmycallstd && !f.lhiscallstd && !f.lnohiscall {
        NDXNSAPTYPES
    } else if !f.lmycallstd && !f.lhiscallstd && !f.lnohiscall {
        NDXNSAPTYPES
    } else {
        NMYCNSAPTYPES
    }
}

/// The entries of a table row by row.
pub open spec fn flat(t: [[i32; 27]; 6]) -> Seq<i32> {
    Seq::new(162, |k: int| t[k / 27][k % 27])
}

/// The nonzero entries, in order.
pub open spec fn nonzero(s: Seq<i32>) -> Seq<i32>
    decreases s.len(),
{
    if s.len() == 0 {
        s
    } else if s.last() != 0 {
        nonzero(s.drop_last()).push(s.last())
    } else {
        nonzero(s.drop_last())
    }
}

/// The AP types a configuration tries, in pass order, with repeats.
pub fn ap_types_for_config(lhound: bool, calls: ApCallFlags) -> (r: Vec<i32>)
    ensures
        r@ == nonzero(flat(table_for(lhound, calls))),
{
    let table: [[i32; 27]; 6] = if lhound {
        NHAPTYPES
    } else if calls.lmycallstd && (calls.lhiscallstd || calls.lnohiscall) {
        NAPTYPES
    } else if calls.lmycallstd && !calls.lhiscallstd && !calls.lnohiscall {
        NDXNSAPTYPES
    } else if !calls.lmycallstd && !calls.lhiscallstd && !calls.lnohiscall {
        NDXNSAPTYPES
    } else {
        NMYCNSAPTYPES
    };
    let ghost f = flat(table);
    let mut r: Vec<i32> = Vec::new();
    let mut k: usize = 0;
    while k < 162
        invariant
            k <= 162,
            table == table_for(lhound, calls),
            f == flat(table),
            r@ == nonzero(f.subrange(0, k as int)),
        decreases 162 - k,
    {
        proof {
            assert(f.subrange(0, k + 1).drop_last() =~= f.subrange(0, k as int));
            assert(f.subrange(0, k + 1).last() == table[(k / 27) as int][(k % 27) as int]);
        }
        let row = table[k / 27];
        let v = row[k % 27];
        if v != 0 {
            r.push(v);
        }
        k = k + 1;
    }
    proof {
        assert(f.subrange(0, 162) =~= f);
    }
    r
}

/// The position of a byte in the call-sign alphabet
/// `" 0123456789ABCDEFGHIJKLMNOPQRSTUVWXYZ/"`, or 0 when absent.
pub open spec fn c38_index(b: u8) -> nat {
    if 0x30 <= b <= 0x39 {
        (b - 0x30 + 1) as nat
    } else if 0x41 <= b <= 0x5a {
        (b - 0x41 + 11) as nat
    } else if b == 0x2f {
        37
    } else {
        0
    }
}

/// The byte a character of a call is hashed by: its upper-case form cut
/// to its low eight bits.
pub open spec fn hash_byte(c: char) -> u8 {
    ((to_upper(c) as u32) % 256) as u8
}

/// The call's first 11 characters, padded with spaces.
pub open spec fn pad11(s: Seq<char>) -> Seq<char> {
    Seq::new(11, |i: int| if i < s.len() {
        s[i]
    } else {
        ' '
    })
}

/// The base-38 number of a character sequence.
pub open spec fn base38(s: Seq<char>) -> nat
    decreases s.len(),
{
    if s.len() == 0 {
        0
    } else {
        38 * base38(s.drop_last()) + c38_index(hash_byte(s.last()))
    }
}

/// The `m`-bit hash of a call: the top `m` bits of the 64-bit product of a
/// fixed odd constant with the call's base-38 number.
pub open spec fn call_hash(call: Seq<char>, m: u32) -> u64 {
    let n = base38(pad11(call));
    let prod = ((47055833459 * n) % 0x1_0000_0000_0000_0000) as u64;
    (prod >> ((64 - m) as u32)) & (((1u64 << m) - 1) as u64)
}

fn c38_position(b: u8) -> (r: u64)
    ensures
        r == c38_index(b),
{
    if 0x30 <= b && b <= 0x39 {
        (b - 0x30 + 1) as u64
    } else if 0x41 <= b && b <= 0x5a {
        (b - 0x41 + 11) as u64
    } else if b == 0x2f {
        37
    } else {
        0
    }
}

proof fn lemma_base38_bound(s: Seq<char>)
    ensures
        base38(s) < pow38(s.len()),
    decreases s.len(),
{
    if s.len() > 0 {
        lemma_base38_bound(s.drop_last());
        let b = base38(s.drop_last());
        let p = pow38(s.drop_last().len());
        let c = c38_index(hash_byte(s.last()));
        assert(c < 38);
        assert(38 * b + c < 38 * p) by (nonlinear_arith)
            requires
                b < p,
                c < 38,
        ;
    }
}

/// `38` to the power `n`.
pub open spec fn pow38(n: nat) -> nat
    decreases n,
{
    if n == 0 {
        1
    } else {
        38 * pow38((n - 1) as nat)
    }
}

/// The hash of a call into `m` bits, as the AP masks and the hash table use.
pub fn ihashcall_bits(call: &str, m: usize) -> (r: usize)
    requires
        1 <= m <= 63,
    ensures
        r == call_hash(call@, m as u32) as usize,
{
    let cs = chars_of(call);
    let ghost p = pad11(cs@);
    let mut n8: u64 = 0;
    let mut count: usize = 0;
    proof {
        assert(p.subrange(0, 0) =~= Seq::<char>::empty());
    }
    while count < 11
        invariant
            count <= 11,
            p == pad11(cs@),
            n8 == base38(p.subrange(0, count as int)),
        decreases 11 - count,
    {
        proof {
            assert(p.subrange(0, count + 1).drop_last() =~= p.subrange(0, count as int));
            lemma_base38_bound(p.subrange(0, count as int));
            assert(pow38(count as nat) <= pow38(10)) by {
                lemma_pow38_mono(count as nat, 10);
            }
            assert(pow38(10) == 6278211847988224) by {
                reveal_with_fuel(pow38, 11);
            }
        }
        let c: char = if count < cs.len() {
            cs[count]
        } else {
            ' '
        };
        let uc = crate::text::upper_char(c);
        let b = ((uc as u32) % 256) as u8;
        let j = c38_position(b);
        proof {
            assert(p[count as int] == c);
            assert(b == hash_byte(c));
        }
        n8 = 38 * n8 + j;
        count = count + 1;
    }
    proof {
        assert(p.subrange(0, 11) =~= p);
    }
    let prod = 47055833459u64.wrapping_mul(n8);
    let m32 = m as u32;
    let shift: u32 = 64 - m32;
    proof {
        assert(1u64 << m32 >= 2u64) by (bit_vector)
            requires
                1 <= m32 <= 63,
        ;
    }
    let mask: u64 = (1u64 << m32) - 1;
    let r = (prod >> shift) & mask;
    r as usize
}

proof fn lemma_pow38_mono(a: nat, b: nat)
    requires
        a <= b,
    ensures
        pow38(a) <= pow38(b),
    decreases b,
{
    if a < b {
        lemma_pow38_mono(a, (b - 1) as nat);
    }
}

/// The AP mask of a Hound's type-4 CQ: the last six bits, with the `i3`
/// field of a nonstandard-call message.
#[derive(Clone, Copy)]
pub struct ApMaskPlan {
    pub message77: [u8; 77],
    pub apmask: [i8; 174],
}

pub fn hound_cq_type4_mask() -> (r: ApMaskPlan)
    ensures
        forall|i: int| 0 <= i < 174 ==> #[trigger] r.apmask[i] == if 71 <= i < 77 {
            1i8
        } else {
            0i8
        },
        forall|i: int| 0 <= i < 77 ==> #[trigger] r.message77[i] == if i == 73 || i == 74 {
            1u8
        } else {
            0u8
        },
{
    let mut message77 = [0u8; 77];
    let mut apmask = [0i8; 174];
    let mut i: usize = 71;
    while i < 77
        invariant
            71 <= i <= 77,
            forall|k: int| 0 <= k < 174 ==> #[trigger] apmask[k] == if 71 <= k < i {
                1i8
            } else {
                0i8
            },
        decreases 77 - i,
    {
        apmask[i] = 1;
        i = i + 1;
    }
    message77[73] = 1;
    message77[74] = 1;
    ApMaskPlan { message77, apmask }
}

/// `"{mycall} RR73; {mycall} <{hiscall}> -16"`, his call defaulting to mine.
pub open spec fn hound_special_text(mycall: Seq<char>, hiscall: Option<Seq<char>>) -> Seq<char> {
    let h = match hiscall {
        Some(x) => x,
        None => mycall,
    };
    mycall + " RR73; "@ + mycall + " <"@ + h + "> -16"@
}

pub fn hound_special_template(mycall: &str, hiscall: Option<&str>) -> (r: String)
    ensures
        r@ == hound_special_text(
            mycall@,
            match hiscall {
                Some(h) => Some(h@),
                None => None,
            },
        ),
{
    let h = match hiscall {
        Some(x) => x,
        None => mycall,
    };
    let mut out: Vec<char> = Vec::new();
    let m = chars_of(mycall);
    let hc = chars_of(h);
    crate::dx_report::push_all(&mut out, &m);
    let a = chars_of(" RR73; ");
    crate::dx_report::push_all(&mut out, &a);
    crate::dx_report::push_all(&mut out, &m);
    let b = chars_of(" <");
    crate::dx_report::push_all(&mut out, &b);
    crate::dx_report::push_all(&mut out, &hc);
    let c = chars_of("> -16");
    crate::dx_report::push_all(&mut out, &c);
    string_of(&out)
}

/// The first position of `/`.
pub open spec fn first_slash(s: Seq<char>) -> Option<int> {
    if exists|i: int| 0 <= i < s.len() && s[i] == '/' {
        Some(choose|i: int| 0 <= i < s.len() && s[i] == '/' && forall|k: int| 0 <= k < i ==> s[k] != '/')
    } else {
        None
    }
}

/// The base of a call: trimmed and without hash brackets, the longer side
/// of its first `/` (the left one on a tie); none under three bytes.
pub open spec fn base_call_of(call: Option<&str>) -> Option<Seq<char>> {
    match call {
        Some(c) => {
            let t = strip_trail(strip_lead(trim(c@), '<', '<'), '>', '>');
            let base = match first_slash(t) {
                Some(i) => {
                    let left = t.subrange(0, i);
                    let right = t.subrange(i + 1, t.len() as int);
                    if byte_len(left) >= byte_len(right) {
                        left
                    } else {
                        right
                    }
                },
                None => t,
            };
            if byte_len(base) < 3 {
                None
            } else {
                Some(upper(base))
            }
        },
        None => None,
    }
}

pub fn base_call(call: Option<&str>) -> (r: Option<String>)
    ensures
        match r {
            Some(s) => base_call_of(call) == Some(s@),
            None => base_call_of(call) is None,
        },
{
    let c = match call {
        Some(c) => c,
        None => {
            return None;
        },
    };
    let cs = chars_of(c);
    let t0 = crate::text::trim_chars(&cs);
    let t1 = crate::text::strip_lead_chars(&t0, '<', '<');
    let t = crate::text::strip_trail_chars(&t1, '>', '>');
    let mut i: usize = 0;
    while i < t.len() && t[i] != '/'
        invariant
            i <= t@.len(),
            forall|k: int| 0 <= k < i ==> t@[k] != '/',
        decreases t@.len() - i,
    {
        i = i + 1;
    }
    let base: Vec<char> = if i < t.len() {
        proof {
            assert(t@[i as int] == '/');
            let j = choose|j: int| 0 <= j < t@.len() && t@[j] == '/' && forall|k: int| 0 <= k < j ==> t@[k] != '/';
            assert(j == i) by {
                if j < i {
                } else if j > i {
                }
            }
        }
        let left = crate::text::slice_range(&t, 0, i);
        let right = crate::text::slice_range(&t, i + 1, t.len());
        if crate::text::byte_len_chars(&left) >= crate::text::byte_len_chars(&right) {
            left
        } else {
            right
        }
    } else {
        proof {
            assert(!(exists|k: int| 0 <= k < t@.len() && t@[k] == '/'));
        }
        crate::text::slice_range(&t, 0, t.len())
    };
    proof {
        assert(t@.subrange(0, t@.len() as int) =~= t@);
    }
    if crate::text::byte_len_chars(&base) < 3 {
        return None;
    }
    let u = crate::text::upper_chars(&base);
    Some(string_of(&u))
}

/// The text and packing plan of an AP template: the message packed as the
/// a-priori bits, the bit ranges it fixes, and the `i3` its packing must
/// show.
pub struct ApTemplate {
    pub template: String,
    pub ranges: Vec<(usize, usize)>,
    pub expected_i3: usize,
}

/// Where the AP bits of a type come from.
pub enum ApMaskSource {
    Packed(ApTemplate),
    HoundCqType4,
}

/// The spec form of an AP template.
pub struct TemplateModel {
    pub text: Seq<char>,
    pub ranges: Seq<(usize, usize)>,
    pub expected_i3: usize,
}

/// Which way a type's AP bits are made, as plain values.
pub enum SourceModel {
    Packed(TemplateModel),
    HoundCqType4,
}

/// The text of an optional configured call, trimmed.
pub open spec fn raw_text(call: Option<&str>) -> Seq<char> {
    match call {
        Some(c) => c@,
        None => Seq::empty(),
    }
}

/// The first characters of `t` that make up exactly four bytes: the
/// shortest prefix of that size, absent when byte four falls inside a
/// character.
pub open spec fn four_byte_prefix(t: Seq<char>) -> Option<int> {
    if exists|k: int| 0 <= k <= t.len() && #[trigger] byte_len(t.subrange(0, k)) == 4 {
        Some(
            choose|k: int|
                0 <= k <= t.len() && #[trigger] byte_len(t.subrange(0, k)) == 4 && forall|j: int|
                    0 <= j < k ==> byte_len(#[trigger] t.subrange(0, j)) != 4,
        )
    } else {
        None
    }
}

/// The grid of the target: the first four bytes of the trimmed grid,
/// upper-cased, when it has four bytes or more.
pub open spec fn template_grid(hisgrid: Option<&str>) -> Option<Seq<char>> {
    match hisgrid {
        Some(g) => {
            let t = trim(g@);
            if byte_len(t) >= 4 {
                match four_byte_prefix(t) {
                    Some(k) => Some(upper(t.subrange(0, k))),
                    None => None,
                }
            } else {
                None
            }
        },
        None => None,
    }
}

/// A packed template.
pub open spec fn packed(text: Seq<char>, ranges: Seq<(usize, usize)>, i3: usize) -> Option<SourceModel> {
    Some(SourceModel::Packed(TemplateModel { text, ranges, expected_i3: i3 }))
}

pub open spec fn sp(a: Seq<char>, b: Seq<char>) -> Seq<char> {
    a + seq![' '] + b
}

pub open spec fn br(a: Seq<char>) -> Seq<char> {
    seq!['<'] + a + seq!['>']
}

pub open spec fn head_ranges() -> Seq<(usize, usize)> {
    seq![(0usize, 58usize), (74usize, 77usize)]
}

pub open spec fn cq_ranges() -> Seq<(usize, usize)> {
    seq![(0usize, 29usize), (74usize, 77usize)]
}

pub open spec fn all_ranges() -> Seq<(usize, usize)> {
    seq![(0usize, 77usize)]
}

/// The template of a call pair with its report, types 3 to 6 and their
/// hashed forms.
pub open spec fn pair_model(m: Seq<char>, h: Seq<char>, t: i32) -> Option<SourceModel> {
    let (a, b) = if t == 11 || t == 42 || t == 43 || t == 44 {
        (m, br(h))
    } else if t == 41 || t == 12 || t == 13 || t == 14 {
        (br(m), h)
    } else {
        (m, h)
    };
    let tail = if t == 3 || t == 11 || t == 41 {
        "+00"@
    } else if t == 4 || t == 12 || t == 42 {
        "RRR"@
    } else if t == 5 || t == 13 || t == 43 {
        "73"@
    } else {
        "RR73"@
    };
    let ranges = if t == 3 || t == 11 || t == 41 {
        head_ranges()
    } else {
        all_ranges()
    };
    let i3: usize = if t == 12 || t == 13 || t == 14 || t == 42 || t == 43 || t == 44 {
        4
    } else {
        1
    };
    packed(sp(sp(a, b), tail), ranges, i3)
}

/// The template of the QSO-end types 35 (`73`) and 36 (`RR73`); a Hound
/// answering a standard or portable call sends base calls.
pub open spec fn end_model(
    my: Option<Seq<char>>,
    his: Option<Seq<char>>,
    myb: Option<Seq<char>>,
    hisb: Option<Seq<char>>,
    mystd: bool,
    hisstd: bool,
    hound_pair: bool,
    t: i32,
) -> Option<SourceModel> {
    let tail = if t == 35 {
        "73"@
    } else {
        "RR73"@
    };
    if t == 36 && hound_pair {
        match (myb, hisb) {
            (Some(a), Some(b)) => packed(sp(sp(a, b), "RR73"@), seq![(29usize, 77usize)], 1),
            _ => None,
        }
    } else if hisstd {
        match his {
            Some(h) => if mystd {
                match my {
                    Some(m) => packed(sp(sp(m, h), tail), seq![(29usize, 77usize)], 1),
                    None => None,
                }
            } else {
                packed(sp(sp(h, h), tail), seq![(29usize, 77usize)], 1)
            },
            None => None,
        }
    } else {
        match his {
            Some(h) => packed(sp(sp("<W9XYZ>"@, h), tail), seq![(13usize, 77usize)], 4),
            None => None,
        }
    }
}

pub open spec fn opt_view(v: Option<Vec<char>>) -> Option<Seq<char>> {
    match v {
        Some(x) => Some(x@),
        None => None,
    }
}

/// The AP template of type `t` for the configuration.
pub open spec fn template_for(
    mycall: Option<&str>,
    hiscall: Option<&str>,
    hisgrid: Option<&str>,
    lhound: bool,
    t: i32,
) -> Option<SourceModel> {
    let my = crate::ap_subpass::config_call(mycall);
    let his = crate::ap_subpass::config_call(hiscall);
    let myb = base_call_of(mycall);
    let hisb = base_call_of(hiscall);
    let mystd = my is Some && !crate::ap_subpass::nonstandard(raw_text(mycall));
    let hisstd = his is Some && !crate::ap_subpass::nonstandard(raw_text(hiscall));
    let grid = template_grid(hisgrid);
    if t == 1 {
        packed("CQ K1ABC AA00"@, cq_ranges(), 1)
    } else if t == 111 {
        Some(SourceModel::HoundCqType4)
    } else if t == 2 {
        match my {
            Some(m) => packed(sp(m, "K1ABC AA00"@), cq_ranges(), 1),
            None => None,
        }
    } else if t == 3 || t == 4 || t == 5 || t == 6 || t == 11 || t == 41 || t == 12 || t == 13 || t == 14
        || t == 42 || t == 43 || t == 44 {
        match (my, his) {
            (Some(m), Some(h)) => pair_model(m, h, t),
            _ => None,
        }
    } else if t == 21 || t == 23 {
        match (myb, hisb) {
            (Some(a), Some(b)) => if t == 21 {
                packed(sp(sp(a, b), "-15"@), head_ranges(), 1)
            } else {
                packed(sp(sp(a, b), "RR73"@), all_ranges(), 1)
            },
            _ => None,
        }
    } else if t == 22 || t == 24 {
        match my {
            Some(m) => packed(
                hound_special_text(m, his),
                if t == 22 {
                    seq![(28usize, 66usize), (71usize, 77usize)]
                } else {
                    seq![(0usize, 28usize), (56usize, 66usize), (71usize, 77usize)]
                },
                0,
            ),
            None => None,
        }
    } else if t == 31 {
        match his {
            Some(h) => if hisstd {
                match grid {
                    Some(g) => packed(sp(sp("CQ"@, h), g), all_ranges(), 1),
                    None => packed(sp(sp("CQ"@, h), "AA00"@), head_ranges(), 1),
                }
            } else {
                packed(sp("CQ"@, h), all_ranges(), 4)
            },
            None => None,
        }
    } else if t == 35 || t == 36 {
        let hound_pair = lhound && (hisstd || (!hisstd && byte_len(trim(raw_text(hiscall))) > 2 && raw_text(
            hiscall,
        ).contains('/')));
        end_model(my, his, myb, hisb, mystd, hisstd, hound_pair, t)
    } else if t == 40 {
        match my {
            Some(m) => packed(
                sp(
                    sp(
                        br(m),
                        match his {
                            Some(h) => h,
                            None => "ZZ1ZZZ"@,
                        },
                    ),
                    "-15"@,
                ),
                cq_ranges(),
                1,
            ),
            None => None,
        }
    } else {
        None
    }
}

/// The plain-value form of a mask source.
pub open spec fn source_model(s: ApMaskSource) -> SourceModel {
    match s {
        ApMaskSource::Packed(t) => SourceModel::Packed(
            TemplateModel { text: t.template@, ranges: t.ranges@, expected_i3: t.expected_i3 },
        ),
        ApMaskSource::HoundCqType4 => SourceModel::HoundCqType4,
    }
}

/// A trimmed grid has a four-byte prefix whenever it has four bytes.
pub open spec fn grid_sliceable(hisgrid: Option<&str>) -> bool {
    match hisgrid {
        Some(g) => byte_len(trim(g@)) < 4 || four_byte_prefix(trim(g@)) is Some,
        None => true,
    }
}

fn grid_prefix(hisgrid: Option<&str>) -> (r: Option<Vec<char>>)
    requires
        grid_sliceable(hisgrid),
    ensures
        match r {
            Some(v) => template_grid(hisgrid) == Some(v@),
            None => template_grid(hisgrid) is None,
        },
{
    let g = match hisgrid {
        Some(g) => g,
        None => {
            return None;
        },
    };
    let gc = chars_of(g);
    let t = crate::text::trim_chars(&gc);
    if crate::text::byte_len_chars(&t) < 4 {
        return None;
    }
    let mut k: usize = 0;
    loop
        invariant_except_break
            k <= t@.len(),
            forall|j: int| 0 <= j < k ==> byte_len(#[trigger] t@.subrange(0, j)) != 4,
            byte_len(t@) >= 4,
            t@ == trim(g@),
            hisgrid == Some(g),
        ensures
            k <= t@.len(),
            byte_len(t@.subrange(0, k as int)) == 4,
            forall|j: int| 0 <= j < k ==> byte_len(#[trigger] t@.subrange(0, j)) != 4,
            t@ == trim(g@),
        decreases t@.len() - k,
    {
        let head = crate::text::slice_range(&t, 0, k);
        if crate::text::byte_len_chars(&head) == 4 {
            break;
        }
        if k == t.len() {
            proof {
                assert(byte_len(t@.subrange(0, k as int)) != 4);
                assert forall|c: int| 0 <= c <= t@.len() implies #[trigger] byte_len(t@.subrange(0, c)) != 4 by {
                    if c < k {
                        assert(byte_len(t@.subrange(0, c)) != 4);
                    }
                }
            }
            return None;
        }
        k = k + 1;
    }
    proof {
        let c = choose|c: int|
            0 <= c <= t@.len() && #[trigger] byte_len(t@.subrange(0, c)) == 4 && forall|j: int|
                0 <= j < c ==> byte_len(#[trigger] t@.subrange(0, j)) != 4;
        assert(0 <= k <= t@.len() && byte_len(t@.subrange(0, k as int)) == 4 && forall|j: int|
            0 <= j < k ==> byte_len(#[trigger] t@.subrange(0, j)) != 4);
        assert(c == k) by {
            if c < k {
                assert(byte_len(t@.subrange(0, c)) != 4);
            } else if c > k {
                assert(byte_len(t@.subrange(0, k as int)) != 4);
            }
        }
        assert(four_byte_prefix(t@) == Some(k as int));
    }
    let head = crate::text::slice_range(&t, 0, k);
    let u = crate::text::upper_chars(&head);
    Some(u)
}

fn spaced(a: &[char], b: &[char]) -> (r: Vec<char>)
    ensures
        r@ == sp(a@, b@),
{
    let mut out: Vec<char> = Vec::new();
    push_all(&mut out, a);
    out.push(' ');
    push_all(&mut out, b);
    proof {
        assert(out@ =~= sp(a@, b@));
    }
    out
}

fn bracketed(a: &[char]) -> (r: Vec<char>)
    ensures
        r@ == br(a@),
{
    let mut out: Vec<char> = Vec::new();
    out.push('<');
    push_all(&mut out, a);
    out.push('>');
    proof {
        assert(out@ =~= br(a@));
    }
    out
}

fn range_list(spans: &[(usize, usize)]) -> (r: Vec<(usize, usize)>)
    ensures
        r@ == spans@,
{
    let mut out: Vec<(usize, usize)> = Vec::new();
    let mut i: usize = 0;
    while i < spans.len()
        invariant
            i <= spans@.len(),
            out@ == spans@.subrange(0, i as int),
        decreases spans@.len() - i,
    {
        out.push(spans[i]);
        i = i + 1;
    }
    proof {
        assert(spans@.subrange(0, spans@.len() as int) =~= spans@);
    }
    out
}

fn packed_source(text: Vec<char>, ranges: Vec<(usize, usize)>, i3: usize) -> (r: ApMaskSource)
    ensures
        source_model(r) == SourceModel::Packed(TemplateModel { text: text@, ranges: ranges@, expected_i3: i3 }),
{
    ApMaskSource::Packed(ApTemplate { template: string_of(&text), ranges, expected_i3: i3 })
}

fn opt_chars(s: &Option<String>) -> (r: Option<Vec<char>>)
    ensures
        match s {
            Some(x) => r is Some && r->0@ == x@,
            None => r is None,
        },
{
    match s {
        Some(x) => Some(chars_of(x.as_str())),
        None => None,
    }
}

fn copy_chars(v: &[char]) -> (r: Vec<char>)
    ensures
        r@ == v@,
{
    proof {
        assert(v@.subrange(0, v@.len() as int) =~= v@);
    }
    crate::text::slice_range(v, 0, v.len())
}

fn cq_range_list() -> (r: Vec<(usize, usize)>)
    ensures
        r@ == cq_ranges(),
{
    let spans = [(0usize, 29usize), (74usize, 77usize)];
    proof {
        assert(spans@ =~= cq_ranges());
    }
    range_list(&spans)
}

fn head_range_list() -> (r: Vec<(usize, usize)>)
    ensures
        r@ == head_ranges(),
{
    let spans = [(0usize, 58usize), (74usize, 77usize)];
    proof {
        assert(spans@ =~= head_ranges());
    }
    range_list(&spans)
}

fn all_range_list() -> (r: Vec<(usize, usize)>)
    ensures
        r@ == all_ranges(),
{
    let spans = [(0usize, 77usize)];
    proof {
        assert(spans@ =~= all_ranges());
    }
    range_list(&spans)
}

fn tail_range_list(start: usize) -> (r: Vec<(usize, usize)>)
    ensures
        r@ == seq![(start, 77usize)],
{
    let spans = [(start, 77usize)];
    proof {
        assert(spans@ =~= seq![(start, 77usize)]);
    }
    range_list(&spans)
}

/// The template of a call pair with its report, types 3 to 6 and their
/// hashed forms.
fn pair_template(m: &[char], h: &[char], t: i32) -> (r: ApMaskSource)
    requires
        t == 3 || t == 4 || t == 5 || t == 6 || t == 11 || t == 41 || t == 12 || t == 13 || t == 14
            || t == 42 || t == 43 || t == 44,
    ensures
        Some(source_model(r)) == pair_model(m@, h@, t),
{
    let (a, b) = if t == 11 || t == 42 || t == 43 || t == 44 {
        (copy_chars(m), bracketed(h))
    } else if t == 41 || t == 12 || t == 13 || t == 14 {
        (bracketed(m), copy_chars(h))
    } else {
        (copy_chars(m), copy_chars(h))
    };
    let tail = if t == 3 || t == 11 || t == 41 {
        chars_of("+00")
    } else if t == 4 || t == 12 || t == 42 {
        chars_of("RRR")
    } else if t == 5 || t == 13 || t == 43 {
        chars_of("73")
    } else {
        chars_of("RR73")
    };
    let ranges = if t == 3 || t == 11 || t == 41 {
        head_range_list()
    } else {
        all_range_list()
    };
    let i3: usize = if t == 12 || t == 13 || t == 14 || t == 42 || t == 43 || t == 44 {
        4
    } else {
        1
    };
    let ab = spaced(&a, &b);
    packed_source(spaced(&ab, &tail), ranges, i3)
}

/// The template of the QSO-end types 35 and 36.
fn end_template(
    my: &Option<Vec<char>>,
    his: &Option<Vec<char>>,
    myb: &Option<Vec<char>>,
    hisb: &Option<Vec<char>>,
    mystd: bool,
    hisstd: bool,
    hound_pair: bool,
    t: i32,
) -> (r: Option<ApMaskSource>)
    requires
        t == 35 || t == 36,
        mystd ==> my is Some,
        hisstd ==> his is Some,
    ensures
        match r {
            Some(s) => Some(source_model(s)) == end_model(opt_view(*my), opt_view(*his), opt_view(*myb), opt_view(*hisb), mystd, hisstd, hound_pair, t),
            None => end_model(opt_view(*my), opt_view(*his), opt_view(*myb), opt_view(*hisb), mystd, hisstd, hound_pair, t) is None,
        },
{
    let tail = if t == 35 {
        chars_of("73")
    } else {
        chars_of("RR73")
    };
    if t == 36 && hound_pair {
        match (myb, hisb) {
            (Some(a), Some(b)) => {
                let ab = spaced(a, b);
                let text = spaced(&ab, &chars_of("RR73"));
                Some(packed_source(text, tail_range_list(29), 1))
            },
            _ => None,
        }
    } else if hisstd {
        match his {
            Some(h) => {
                if mystd {
                    match my {
                        Some(m) => {
                            let ab = spaced(m, h);
                            Some(packed_source(spaced(&ab, &tail), tail_range_list(29), 1))
                        },
                        None => None,
                    }
                } else {
                    let ab = spaced(h, h);
                    Some(packed_source(spaced(&ab, &tail), tail_range_list(29), 1))
                }
            },
            None => None,
        }
    } else {
        match his {
            Some(h) => {
                let ab = spaced(&chars_of("<W9XYZ>"), h);
                Some(packed_source(spaced(&ab, &tail), tail_range_list(13), 4))
            },
            None => None,
        }
    }
}

/// The AP template of type `iaptype` for the configuration: the message
/// whose packing gives the a-priori bits, the bit ranges it fixes and the
/// `i3` it must pack to; the Hound's type-4 CQ mask for type 111; none for
/// an unknown type or a call the type needs but the configuration lacks.
pub fn ap_template(
    mycall: Option<&str>,
    hiscall: Option<&str>,
    hisgrid: Option<&str>,
    lhound: bool,
    iaptype: i32,
) -> (r: Option<ApMaskSource>)
    requires
        grid_sliceable(hisgrid),
    ensures
        match r {
            Some(s) => template_for(mycall, hiscall, hisgrid, lhound, iaptype) == Some(source_model(s)),
            None => template_for(mycall, hiscall, hisgrid, lhound, iaptype) is None,
        },
{
    let t = iaptype;
    let my_s = crate::ap_subpass::normalized_config_call(mycall);
    let his_s = crate::ap_subpass::normalized_config_call(hiscall);
    let my = opt_chars(&my_s);
    let his = opt_chars(&his_s);
    let myb = opt_chars(&base_call(mycall));
    let hisb = opt_chars(&base_call(hiscall));
    let mystd = match mycall {
        Some(c) => my.is_some() && !crate::ap_subpass::is_nonstandard_call(c),
        None => false,
    };
    let hisstd = match hiscall {
        Some(c) => his.is_some() && !crate::ap_subpass::is_nonstandard_call(c),
        None => false,
    };
    let grid = grid_prefix(hisgrid);
    if t == 1 {
        Some(packed_source(chars_of("CQ K1ABC AA00"), cq_range_list(), 1))
    } else if t == 111 {
        Some(ApMaskSource::HoundCqType4)
    } else if t == 2 {
        match &my {
            Some(m) => Some(packed_source(spaced(m, &chars_of("K1ABC AA00")), cq_range_list(), 1)),
            None => None,
        }
    } else if t == 3 || t == 4 || t == 5 || t == 6 || t == 11 || t == 41 || t == 12 || t == 13 || t == 14
        || t == 42 || t == 43 || t == 44 {
        match (&my, &his) {
            (Some(m), Some(h)) => Some(pair_template(m, h, t)),
            _ => None,
        }
    } else if t == 21 || t == 23 {
        match (&myb, &hisb) {
            (Some(a), Some(b)) => {
                let ab = spaced(a, b);
                if t == 21 {
                    Some(packed_source(spaced(&ab, &chars_of("-15")), head_range_list(), 1))
                } else {
                    Some(packed_source(spaced(&ab, &chars_of("RR73")), all_range_list(), 1))
                }
            },
            _ => None,
        }
    } else if t == 22 || t == 24 {
        match &my_s {
            Some(ms) => {
                let hs: Option<&str> = match &his_s {
                    Some(x) => Some(x.as_str()),
                    None => None,
                };
                let text = hound_special_template(ms.as_str(), hs);
                let ranges = if t == 22 {
                    let spans = [(28usize, 66usize), (71usize, 77usize)];
                    proof {
                        assert(spans@ =~= seq![(28usize, 66usize), (71usize, 77usize)]);
                    }
                    range_list(&spans)
                } else {
                    let spans = [(0usize, 28usize), (56usize, 66usize), (71usize, 77usize)];
                    proof {
                        assert(spans@ =~= seq![(0usize, 28usize), (56usize, 66usize), (71usize, 77usize)]);
                    }
                    range_list(&spans)
                };
                Some(packed_source(chars_of(text.as_str()), ranges, 0))
            },
            None => None,
        }
    } else if t == 31 {
        match &his {
            Some(h) => {
                let cq = chars_of("CQ");
                if hisstd {
                    let cqh = spaced(&cq, h);
                    match &grid {
                        Some(g) => Some(packed_source(spaced(&cqh, g), all_range_list(), 1)),
                        None => Some(packed_source(spaced(&cqh, &chars_of("AA00")), head_range_list(), 1)),
                    }
                } else {
                    Some(packed_source(spaced(&cq, h), all_range_list(), 4))
                }
            },
            None => None,
        }
    } else if t == 35 || t == 36 {
        let portable = match hiscall {
            Some(c) => {
                let cs = chars_of(c);
                let tr = crate::text::trim_chars(&cs);
                let slash = crate::jtdx_calls::find_char(&cs, '/', 0);
                proof {
                    if let Some(k) = slash {
                        assert(cs@[k as int] == '/');
                    }
                }
                crate::text::byte_len_chars(&tr) > 2 && slash.is_some()
            },
            None => false,
        };
        let hound_pair = lhound && (hisstd || (!hisstd && portable));
        end_template(&my, &his, &myb, &hisb, mystd, hisstd, hound_pair, t)
    } else if t == 40 {
        match &my {
            Some(m) => {
                let h = match &his {
                    Some(h) => copy_chars(h),
                    None => chars_of("ZZ1ZZZ"),
                };
                let bm = bracketed(m);
                let mh = spaced(&bm, &h);
                Some(packed_source(spaced(&mh, &chars_of("-15")), cq_range_list(), 1))
            },
            None => None,
        }
    } else {
        None
    }
}

/// Bit `i` of a message lies in one of the ranges, cut at 77.
pub open spec fn in_ranges(ranges: Seq<(usize, usize)>, i: int) -> bool {
    exists|k: int| 0 <= k < ranges.len() && (#[trigger] ranges[k]).0 <= i < ranges[k].1 && i < 77
}

/// The mask plan of a template from its packed bits: the 77 message bits
/// and a mask set on the template's ranges; none when the packing is not
/// 77 bits long or its `i3` field is not the one the template expects.
pub fn ap_mask_from_packed(template: &ApTemplate, packed: &[u8]) -> (r: Option<ApMaskPlan>)
    ensures
        match r {
            Some(p) => {
                &&& packed@.len() == 77
                &&& crate::bits::bits_usize(packed@.subrange(74, 77)) == template.expected_i3
                &&& p.message77@ == packed@
                &&& forall|i: int| 0 <= i < 174 ==> #[trigger] p.apmask[i] == if in_ranges(template.ranges@, i) {
                    1i8
                } else {
                    0i8
                }
            },
            None => packed@.len() != 77 || crate::bits::bits_usize(packed@.subrange(74, 77))
                != template.expected_i3,
        },
{
    if packed.len() != 77 {
        return None;
    }
    let mut i3_bits: Vec<u8> = Vec::new();
    i3_bits.push(packed[74]);
    i3_bits.push(packed[75]);
    i3_bits.push(packed[76]);
    proof {
        assert(i3_bits@ =~= packed@.subrange(74, 77));
    }
    if crate::bits::bits_to_usize(&i3_bits) != template.expected_i3 {
        return None;
    }
    let mut message77 = [0u8; 77];
    let mut i: usize = 0;
    while i < 77
        invariant
            i <= 77,
            packed@.len() == 77,
            forall|k: int| 0 <= k < i ==> #[trigger] message77@[k] == packed@[k],
        decreases 77 - i,
    {
        message77[i] = packed[i];
        i = i + 1;
    }
    proof {
        assert(message77@ =~= packed@);
    }
    let ranges = &template.ranges;
    let mut apmask = [0i8; 174];
    let mut k: usize = 0;
    while k < ranges.len()
        invariant
            k <= ranges@.len(),
            forall|i: int| 0 <= i < 174 ==> #[trigger] apmask[i] == if in_ranges(ranges@.subrange(0, k as int), i) {
                1i8
            } else {
                0i8
            },
        decreases ranges@.len() - k,
    {
        let (start, end) = ranges[k];
        let stop = if end < 77 {
            end
        } else {
            77
        };
        let mut j = start;
        while j < stop
            invariant
                start <= j,
                start <= stop ==> j <= stop,
                start > stop ==> j == start,
                stop <= 77,
                (start, end) == ranges@[k as int],
                stop == if end < 77 { end } else { 77 },
                k < ranges@.len(),
                forall|i: int| 0 <= i < 174 ==> #[trigger] apmask[i] == if in_ranges(ranges@.subrange(0, k as int), i) || (start <= i < j) {
                    1i8
                } else {
                    0i8
                },
            decreases stop - j,
        {
            apmask[j] = 1;
            j = j + 1;
        }
        proof {
            let pre = ranges@.subrange(0, k as int);
            let next = ranges@.subrange(0, k + 1);
            assert forall|i: int| 0 <= i < 174 implies in_ranges(next, i) == (in_ranges(pre, i) || (start <= i < j)) by {
                if in_ranges(next, i) {
                    let q = choose|q: int| 0 <= q < next.len() && (#[trigger] next[q]).0 <= i < next[q].1 && i < 77;
                    if q < k {
                        assert(pre[q] == next[q]);
                    }
                }
                if in_ranges(pre, i) {
                    let q = choose|q: int| 0 <= q < pre.len() && (#[trigger] pre[q]).0 <= i < pre[q].1 && i < 77;
                    assert(next[q] == pre[q]);
                }
                if start <= i < j {
                    assert(next[k as int] == (start, end));
                }
            }
        }
        k = k + 1;
    }
    proof {
        assert(ranges@.subrange(0, ranges@.len() as int) =~= ranges@);
    }
    Some(ApMaskPlan { message77, apmask })
}


/// The plan kept for AP type `key`: that of its first entry, none without.
pub open spec fn first_plan(plans: Seq<(i32, Option<ApMaskPlan>)>, key: i32) -> Option<ApMaskPlan>
    decreases plans.len(),
{
    if plans.len() == 0 {
        None
    } else if plans[0].0 == key {
        plans[0].1
    } else {
        first_plan(plans.drop_first(), key)
    }
}

/// The AP masks of a configuration, one per AP type.
pub struct Ft8ApSet {
    plans: Vec<(i32, Option<ApMaskPlan>)>,
}

proof fn lemma_first_plan_push(plans: Seq<(i32, Option<ApMaskPlan>)>, e: (i32, Option<ApMaskPlan>), key: i32)
    requires
        key != e.0 || forall|q: int| 0 <= q < plans.len() ==> (#[trigger] plans[q]).0 != key,
    ensures
        first_plan(plans.push(e), key) == if key == e.0 { e.1 } else { first_plan(plans, key) },
    decreases plans.len(),
{
    let p = plans.push(e);
    if plans.len() > 0 {
        assert(p.drop_first() =~= plans.drop_first().push(e));
        assert(p[0] == plans[0]);
        if plans[0].0 != key {
            if key == e.0 {
                assert forall|q: int| 0 <= q < plans.drop_first().len() implies (#[trigger] plans.drop_first()[q]).0 != key by {
                    assert(plans.drop_first()[q] == plans[q + 1]);
                }
            }
            lemma_first_plan_push(plans.drop_first(), e, key);
        } else {
            assert(key != e.0);
        }
    } else {
        assert(p[0] == e);
        assert(p.drop_first() =~= Seq::<(i32, Option<ApMaskPlan>)>::empty());
        assert(first_plan(Seq::<(i32, Option<ApMaskPlan>)>::empty(), key) is None);
    }
}

impl Ft8ApSet {
    /// The plans held, one entry per AP type.
    pub closed spec fn plans_view(&self) -> Seq<(i32, Option<ApMaskPlan>)> {
        self.plans@
    }

    /// The set of the AP types in `entries` with their masks, each type
    /// taken once, from its first entry.
    pub fn from_plans(entries: &[(i32, Option<ApMaskPlan>)]) -> (r: Ft8ApSet)
        ensures
            forall|key: i32| #[trigger] first_plan(r.plans_view(), key) == first_plan(entries@, key),
            forall|a: int, b: int| 0 <= a < b < r.plans_view().len() ==> (#[trigger] r.plans_view()[a]).0 != (#[trigger] r.plans_view()[b]).0,
    {
        let mut plans: Vec<(i32, Option<ApMaskPlan>)> = Vec::new();
        let mut i: usize = 0;
        while i < entries.len()
            invariant
                i <= entries@.len(),
                forall|key: i32| #[trigger] first_plan(plans@, key) == first_plan(entries@.subrange(0, i as int), key),
                forall|a: int, b: int| 0 <= a < b < plans@.len() ==> (#[trigger] plans@[a]).0 != (#[trigger] plans@[b]).0,
                forall|q: int| 0 <= q < plans@.len() ==> entries@.subrange(0, i as int).contains(#[trigger] plans@[q]),
                forall|q: int| #![trigger entries@[q]] 0 <= q < i ==> exists|w: int| #![trigger plans@[w]] 0 <= w < plans@.len() && plans@[w].0 == entries@[q].0,
            decreases entries@.len() - i,
        {
            let e = entries[i];
            let mut seen = false;
            let mut k: usize = 0;
            while k < plans.len()
                invariant
                    k <= plans@.len(),
                    seen == exists|w: int| 0 <= w < k && (#[trigger] plans@[w]).0 == e.0,
                decreases plans@.len() - k,
            {
                if plans[k].0 == e.0 {
                    seen = true;
                }
                k = k + 1;
            }
            let ghost before = plans@;
            let ghost pre = entries@.subrange(0, i as int);
            proof {
                assert(entries@.subrange(0, i + 1) =~= pre.push(e));
            }
            if !seen {
                plans.push(e);
                proof {
                    assert(plans@ == before.push(e));
                    assert forall|key: i32| #[trigger] first_plan(plans@, key) == first_plan(entries@.subrange(0, i + 1), key) by {
                        lemma_first_plan_push(before, e, key);
                        if key == e.0 {
                            assert forall|q: int| 0 <= q < pre.len() implies (#[trigger] pre[q]).0 != key by {
                                if pre[q].0 == key {
                                    let w = choose|w: int| 0 <= w < before.len() && (#[trigger] before[w]).0 == entries@[q].0;
                                }
                            }
                            lemma_first_plan_push(pre, e, key);
                        } else {
                            lemma_first_plan_push(pre, e, key);
                        }
                    }
                    assert forall|q: int| 0 <= q < plans@.len() implies entries@.subrange(0, i + 1).contains(#[trigger] plans@[q]) by {
                        if q < before.len() {
                            assert(pre.contains(before[q]));
                            let w = choose|w: int| 0 <= w < pre.len() && pre[w] == before[q];
                            assert(entries@.subrange(0, i + 1)[w] == before[q]);
                        } else {
                            assert(entries@.subrange(0, i + 1)[i as int] == e);
                        }
                    }
                    assert forall|q: int| #![trigger entries@[q]] 0 <= q < i + 1 implies exists|w: int| #![trigger plans@[w]] 0 <= w < plans@.len() && plans@[w].0 == entries@[q].0 by {
                        if q < i {
                            let w = choose|w: int| 0 <= w < before.len() && (#[trigger] before[w]).0 == entries@[q].0;
                            assert(plans@[w] == before[w]);
                        } else {
                            assert(plans@[before.len() as int] == e);
                        }
                    }
                }
            } else {
                proof {
                    let w = choose|w: int| 0 <= w < k && (#[trigger] plans@[w]).0 == e.0;
                    assert forall|key: i32| #[trigger] first_plan(plans@, key) == first_plan(entries@.subrange(0, i + 1), key) by {
                        if key == e.0 {
                            // The type is held already: its first entry is earlier.
                            assert(pre.contains(plans@[w]));
                            let q = choose|q: int| 0 <= q < pre.len() && pre[q] == plans@[w];
                            lemma_first_plan_prefix(pre, e, key, q);
                        } else {
                            lemma_first_plan_push(pre, e, key);
                        }
                    }
                    assert forall|q: int| 0 <= q < plans@.len() implies entries@.subrange(0, i + 1).contains(#[trigger] plans@[q]) by {
                        assert(pre.contains(plans@[q]));
                        let w2 = choose|w2: int| 0 <= w2 < pre.len() && pre[w2] == plans@[q];
                        assert(entries@.subrange(0, i + 1)[w2] == plans@[q]);
                    }
                }
            }
            i = i + 1;
        }
        proof {
            assert(entries@.subrange(0, i as int) =~= entries@);
        }
        Ft8ApSet { plans }
    }

    /// The mask of AP type `iaptype`, if the set has one.
    pub fn get(&self, iaptype: i32) -> (r: Option<ApMaskPlan>)
        ensures
            r == first_plan(self.plans_view(), iaptype),
    {
        let mut k: usize = 0;
        assert(self.plans@.subrange(0, self.plans@.len() as int) =~= self.plans@);
        while k < self.plans.len()
            invariant
                k <= self.plans@.len(),
                first_plan(self.plans@, iaptype) == first_plan(self.plans@.subrange(k as int, self.plans@.len() as int), iaptype),
            decreases self.plans@.len() - k,
        {
            let ghost rest = self.plans@.subrange(k as int, self.plans@.len() as int);
            assert(rest[0] == self.plans@[k as int]);
            assert(rest.drop_first() =~= self.plans@.subrange(k + 1, self.plans@.len() as int));
            if self.plans[k].0 == iaptype {
                return self.plans[k].1;
            }
            k = k + 1;
        }
        proof {
            assert(self.plans@.subrange(k as int, self.plans@.len() as int).len() == 0);
        }
        None
    }
}

proof fn lemma_first_plan_prefix(pre: Seq<(i32, Option<ApMaskPlan>)>, e: (i32, Option<ApMaskPlan>), key: i32, q: int)
    requires
        0 <= q < pre.len(),
        pre[q].0 == key,
    ensures
        first_plan(pre.push(e), key) == first_plan(pre, key),
    decreases pre.len(),
{
    if pre[0].0 != key {
        assert(pre.push(e).drop_first() =~= pre.drop_first().push(e));
        assert(pre.drop_first()[q - 1] == pre[q]);
        lemma_first_plan_prefix(pre.drop_first(), e, key, q - 1);
    }
}

} // verus!
