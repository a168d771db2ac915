//! Human-readable size formatting: decimal rendering of byte counts with
//! base-1000 magnitude suffixes, and the color tier for a byte count.

use vstd::prelude::*;
use vstd::arithmetic::div_mod::{lemma_div_is_ordered, lemma_fundamental_div_mod};

verus! {

/// Color classification of a byte count, total over all of `u64`:
/// at least one gigabyte (decimal) is the alert tier, more than five
/// hundred megabytes the warning tier, anything else the normal tier.
#[derive(Clone, Copy, PartialEq, Eq, Structural, Debug)]
pub enum SizeTier {
    Alert,
    Warning,
    Normal,
}

pub const UPPER_THRESHOLD: u64 = 1000000000;

pub const FIVE_HUNDRED_MEGABYTES: u64 = 500000000;

pub open spec fn spec_size_tier(n: u64) -> SizeTier {
    if n >= UPPER_THRESHOLD {
        SizeTier::Alert
    } else if n > FIVE_HUNDRED_MEGABYTES {
        SizeTier::Warning
    } else {
        SizeTier::Normal
    }
}

/// The color tier of a byte count.
pub fn size_tier(filesize: u64) -> (t: SizeTier)
    ensures
        t == spec_size_tier(filesize),
{
    if filesize >= UPPER_THRESHOLD {
        SizeTier::Alert
    } else if filesize > FIVE_HUNDRED_MEGABYTES {
        SizeTier::Warning
    } else {
        SizeTier::Normal
    }
}

/// The decimal digit character for `d`.
pub open spec fn spec_digit(d: int) -> char {
    if d == 0 {
        '0'
    } else if d == 1 {
        '1'
    } else if d == 2 {
        '2'
    } else if d == 3 {
        '3'
    } else if d == 4 {
        '4'
    } else if d == 5 {
        '5'
    } else if d == 6 {
        '6'
    } else if d == 7 {
        '7'
    } else if d == 8 {
        '8'
    } else {
        '9'
    }
}

/// The decimal rendering of `n`, most significant digit first, no leading
/// zeros (except for `n == 0` itself).
pub open spec fn spec_dec(n: nat) -> Seq<char>
    decreases n,
{
    if n < 10 {
        seq![spec_digit(n as int)]
    } else {
        spec_dec(n / 10).push(spec_digit((n % 10) as int))
    }
}

fn digit_str(d: u64) -> (r: &'static str)
    requires
        d < 10,
    ensures
        r@ == seq![spec_digit(d as int)],
{
    if d == 0 {
        proof {
            reveal_strlit("0");
            assert("0"@ =~= seq![spec_digit(0)]);
        }
        "0"
    } else if d == 1 {
        proof {
            reveal_strlit("1");
            assert("1"@ =~= seq![spec_digit(1)]);
        }
        "1"
    } else if d == 2 {
        proof {
            reveal_strlit("2");
            assert("2"@ =~= seq![spec_digit(2)]);
        }
        "2"
    } else if d == 3 {
        proof {
            reveal_strlit("3");
            assert("3"@ =~= seq![spec_digit(3)]);
        }
        "3"
    } else if d == 4 {
        proof {
            reveal_strlit("4");
            assert("4"@ =~= seq![spec_digit(4)]);
        }
        "4"
    } else if d == 5 {
        proof {
            reveal_strlit("5");
            assert("5"@ =~= seq![spec_digit(5)]);
        }
        "5"
    } else if d == 6 {
        proof {
            reveal_strlit("6");
            assert("6"@ =~= seq![spec_digit(6)]);
        }
        "6"
    } else if d == 7 {
        proof {
            reveal_strlit("7");
            assert("7"@ =~= seq![spec_digit(7)]);
        }
        "7"
    } else if d == 8 {
        proof {
            reveal_strlit("8");
            assert("8"@ =~= seq![spec_digit(8)]);
        }
        "8"
    } else {
        proof {
            reveal_strlit("9");
            assert("9"@ =~= seq![spec_digit(9)]);
        }
        "9"
    }
}

/// The digit characters of a least-significant-first digit list, rendered
/// most significant first.
spec fn rev_digit_chars(ds: Seq<u64>) -> Seq<char>
    decreases ds.len(),
{
    if ds.len() == 0 {
        Seq::empty()
    } else {
        rev_digit_chars(ds.skip(1)) + seq![spec_digit(ds[0] as int)]
    }
}

proof fn lemma_rev_digit_chars_push(ds: Seq<u64>, d: u64)
    ensures
        rev_digit_chars(ds.push(d)) == seq![spec_digit(d as int)] + rev_digit_chars(ds),
    decreases ds.len(),
{
    if ds.len() == 0 {
        assert(ds =~= Seq::<u64>::empty());
        assert(ds.push(d).skip(1) =~= Seq::<u64>::empty());
        assert(ds.push(d)[0] == d);
        assert(rev_digit_chars(ds.push(d)) =~= seq![spec_digit(d as int)] + rev_digit_chars(ds));
    } else {
        assert(ds.push(d).skip(1) =~= ds.skip(1).push(d));
        lemma_rev_digit_chars_push(ds.skip(1), d);
        assert(rev_digit_chars(ds.push(d)) == rev_digit_chars(ds.skip(1).push(d)) + seq![
            spec_digit(ds[0] as int),
        ]);
        assert((seq![spec_digit(d as int)] + rev_digit_chars(ds.skip(1))) + seq![
            spec_digit(ds[0] as int),
        ] =~= seq![spec_digit(d as int)] + (rev_digit_chars(ds.skip(1)) + seq![
            spec_digit(ds[0] as int),
        ]));
    }
}

/// The decimal rendering of a byte count as a string.
pub fn u64_to_string(n: u64) -> (r: String)
    ensures
        r@ == spec_dec(n as nat),
{
    let mut digits: Vec<u64> = Vec::new();
    let mut m = n;
    loop
        invariant_except_break
            m > 0 ==> spec_dec(n as nat) == spec_dec(m as nat) + rev_digit_chars(digits@),
            m == 0 ==> n == 0 && digits@.len() == 0,
            forall|p: int| 0 <= p < digits@.len() ==> digits@[p] < 10,
        ensures
            spec_dec(n as nat) == rev_digit_chars(digits@),
            forall|p: int| 0 <= p < digits@.len() ==> digits@[p] < 10,
        decreases m,
    {
        let ghost pre = digits@;
        let ghost mpre = m;
        let d = m % 10;
        digits.push(d);
        m = m / 10;
        proof {
            lemma_rev_digit_chars_push(pre, d);
            if mpre > 0 {
                if mpre >= 10 {
                    assert(spec_dec(mpre as nat) == spec_dec((mpre / 10) as nat).push(
                        spec_digit((mpre % 10) as int),
                    ));
                    assert(spec_dec((mpre / 10) as nat).push(spec_digit(d as int))
                        + rev_digit_chars(pre) =~= spec_dec((mpre / 10) as nat) + (seq![
                        spec_digit(d as int),
                    ] + rev_digit_chars(pre)));
                } else {
                    assert(spec_dec(mpre as nat) =~= seq![spec_digit(d as int)]);
                    assert(spec_dec(n as nat) =~= seq![spec_digit(d as int)] + rev_digit_chars(
                        pre,
                    ));
                }
            } else {
                assert(spec_dec(n as nat) =~= seq![spec_digit(0)]);
                assert(rev_digit_chars(digits@) =~= seq![spec_digit(0)] + rev_digit_chars(pre));
                assert(seq![spec_digit(0)] + rev_digit_chars(pre) =~= seq![spec_digit(0)]);
            }
        }
        if m == 0 {
            break;
        }
    }
    let mut s = String::new();
    let mut i: usize = digits.len();
    proof {
        assert(digits@.skip(i as int) =~= Seq::<u64>::empty());
    }
    while i > 0
        invariant
            i <= digits@.len(),
            s@ == rev_digit_chars(digits@.skip(i as int)),
            spec_dec(n as nat) == rev_digit_chars(digits@),
            forall|p: int| 0 <= p < digits@.len() ==> digits@[p] < 10,
        decreases i,
    {
        i = i - 1;
        s.append(digit_str(digits[i]));
        proof {
            assert(digits@.skip(i as int).skip(1) =~= digits@.skip(i as int + 1));
            assert(digits@.skip(i as int)[0] == digits@[i as int]);
        }
    }
    proof {
        assert(digits@.skip(0) =~= digits@);
    }
    s
}

/// Which base-1000 magnitude a byte count falls in: 0 for bytes up to 6
/// for exabytes.
pub open spec fn spec_unit_index(n: u64) -> int {
    if n < 1000 {
        0
    } else if n < 1000000 {
        1
    } else if n < 1000000000 {
        2
    } else if n < 1000000000000 {
        3
    } else if n < 1000000000000000 {
        4
    } else if n < 1000000000000000000 {
        5
    } else {
        6
    }
}

/// The byte count of one unit of magnitude `k`.
pub open spec fn spec_unit_size(k: int) -> int {
    if k <= 0 {
        1
    } else if k == 1 {
        1000
    } else if k == 2 {
        1000000
    } else if k == 3 {
        1000000000
    } else if k == 4 {
        1000000000000
    } else if k == 5 {
        1000000000000000
    } else {
        1000000000000000000
    }
}

/// The suffix printed for magnitude `k`.
pub open spec fn spec_unit_suffix(k: int) -> Seq<char> {
    if k <= 0 {
        "B"@
    } else if k == 1 {
        "KB"@
    } else if k == 2 {
        "MB"@
    } else if k == 3 {
        "GB"@
    } else if k == 4 {
        "TB"@
    } else if k == 5 {
        "PB"@
    } else {
        "EB"@
    }
}

/// The whole number of units shown for `n`.
pub open spec fn spec_whole(n: u64) -> int {
    n as int / spec_unit_size(spec_unit_index(n))
}

/// The single tenths digit shown for `n` (always 0 for plain bytes).
pub open spec fn spec_tenth(n: u64) -> int {
    if spec_unit_index(n) == 0 {
        0
    } else {
        (n as int % spec_unit_size(spec_unit_index(n))) / (spec_unit_size(spec_unit_index(n))
            / 10)
    }
}

/// The human-readable rendering of a byte count: the whole number of
/// units, a tenths digit when it is not zero (truncated, never rounded),
/// a space and the unit suffix. Truncating differs at the top edge of a
/// unit from a rounding formatter: 999,999 bytes render as `999.9 KB`,
/// never as `1000 KB`. Rounding would take floating point, which this
/// library keeps out; truncation is also what the order law below is
/// proved about.
pub open spec fn spec_human_size(n: u64) -> Seq<char> {
    if spec_tenth(n) == 0 {
        spec_dec(spec_whole(n) as nat) + " "@ + spec_unit_suffix(spec_unit_index(n))
    } else {
        spec_dec(spec_whole(n) as nat) + "."@ + seq![spec_digit(spec_tenth(n))] + " "@
            + spec_unit_suffix(spec_unit_index(n))
    }
}

fn unit_index(n: u64) -> (k: usize)
    ensures
        k as int == spec_unit_index(n),
        k <= 6,
{
    if n < 1000 {
        0
    } else if n < 1000000 {
        1
    } else if n < 1000000000 {
        2
    } else if n < 1000000000000 {
        3
    } else if n < 1000000000000000 {
        4
    } else if n < 1000000000000000000 {
        5
    } else {
        6
    }
}

fn unit_size(k: usize) -> (u: u64)
    requires
        k <= 6,
    ensures
        u as int == spec_unit_size(k as int),
{
    if k == 0 {
        1
    } else if k == 1 {
        1000
    } else if k == 2 {
        1000000
    } else if k == 3 {
        1000000000
    } else if k == 4 {
        1000000000000
    } else if k == 5 {
        1000000000000000
    } else {
        1000000000000000000
    }
}

fn unit_suffix(k: usize) -> (r: &'static str)
    requires
        k <= 6,
    ensures
        r@ == spec_unit_suffix(k as int),
{
    if k == 0 {
        "B"
    } else if k == 1 {
        "KB"
    } else if k == 2 {
        "MB"
    } else if k == 3 {
        "GB"
    } else if k == 4 {
        "TB"
    } else if k == 5 {
        "PB"
    } else {
        "EB"
    }
}

/// The remainder below one unit yields a single digit when divided by a
/// tenth of the unit.
proof fn lemma_tenth_digit_bound(rem: int, u: int)
    requires
        0 <= rem < u,
        u == 1000 || u == 1000000 || u == 1000000000 || u == 1000000000000 || u
            == 1000000000000000 || u == 1000000000000000000,
    ensures
        rem / (u / 10) <= 9,
{
    lemma_div_is_ordered(rem, u - 1, u / 10);
    if u == 1000 {
        assert(999int / 100 == 9);
    } else if u == 1000000 {
        assert(999999int / 100000 == 9);
    } else if u == 1000000000 {
        assert(999999999int / 100000000 == 9);
    } else if u == 1000000000000 {
        assert(999999999999int / 100000000000 == 9);
    } else if u == 1000000000000000 {
        assert(999999999999999int / 100000000000000 == 9);
    } else {
        assert(999999999999999999int / 100000000000000000 == 9);
    }
}

/// Formats a byte count per `spec_human_size`: base-1000 units, at most
/// one tenths digit, truncating toward zero.
pub fn human_size(n: u64) -> (r: String)
    ensures
        r@ == spec_human_size(n),
{
    let k = unit_index(n);
    let u = unit_size(k);
    let whole = n / u;
    let rem = n % u;
    let tenth: u64 = if k == 0 {
        0
    } else {
        rem / (u / 10)
    };
    proof {
        assert(whole as int == spec_whole(n));
        assert(tenth as int == spec_tenth(n));
        if k >= 1 {
            lemma_tenth_digit_bound(rem as int, u as int);
        }
        assert(tenth < 10);
    }
    let mut s = u64_to_string(whole);
    if tenth > 0 {
        s.append(".");
        s.append(digit_str(tenth));
    }
    s.append(" ");
    s.append(unit_suffix(k));
    s
}

/// Larger byte counts never render as a smaller magnitude: the unit index
/// never decreases, within one unit the whole count never decreases, and
/// with the same whole count the tenths digit never decreases.
pub proof fn lemma_human_size_monotone(a: u64, b: u64)
    requires
        a <= b,
    ensures
        spec_unit_index(a) <= spec_unit_index(b),
        spec_unit_index(a) == spec_unit_index(b) ==> spec_whole(a) <= spec_whole(b),
        spec_unit_index(a) == spec_unit_index(b) && spec_whole(a) == spec_whole(b)
            ==> spec_tenth(a) <= spec_tenth(b),
{
    if spec_unit_index(a) == spec_unit_index(b) {
        let u = spec_unit_size(spec_unit_index(a));
        assert(u >= 1);
        lemma_div_is_ordered(a as int, b as int, u);
        if spec_whole(a) == spec_whole(b) {
            lemma_fundamental_div_mod(a as int, u);
            lemma_fundamental_div_mod(b as int, u);
            assert(a as int % u <= b as int % u);
            if spec_unit_index(a) >= 1 {
                lemma_div_is_ordered(a as int % u, b as int % u, u / 10);
            }
        }
    }
}

} // verus!
