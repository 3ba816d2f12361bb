//! Decimal numerals over bytes: printing and scanning, with the facts that
//! make the two inverses of each other.

use vstd::prelude::*;

verus! {

pub open spec fn is_digit(b: u8) -> bool {
    48 <= b <= 57
}

/// The decimal numeral of `n`, most significant digit first.
pub open spec fn dec(n: nat) -> Seq<u8>
    decreases n,
{
    if n < 10 {
        seq![(48 + n) as u8]
    } else {
        dec(n / 10).push((48 + n % 10) as u8)
    }
}

/// The value of a digit string.
pub open spec fn val(s: Seq<u8>) -> int
    decreases s.len(),
{
    if s.len() == 0 {
        0
    } else {
        val(s.drop_last()) * 10 + (s.last() - 48)
    }
}

/// A numeral consists of digits alone.
pub proof fn lemma_dec_digits(n: nat)
    ensures
        dec(n).len() >= 1,
        forall|i: int| 0 <= i < dec(n).len() ==> is_digit(#[trigger] dec(n)[i]),
    decreases n,
{
    if n >= 10 {
        lemma_dec_digits(n / 10);
    }
}

/// Scanning a numeral yields the number it was printed from.
pub proof fn lemma_val_dec(n: nat)
    ensures
        val(dec(n)) == n,
    decreases n,
{
    if n < 10 {
        assert(dec(n) =~= seq![(48 + n) as u8]);
        assert(dec(n).drop_last() =~= Seq::<u8>::empty());
        assert((48 + n) as u8 == 48 + n);
        assert(val(dec(n)) == val(Seq::<u8>::empty()) * 10 + ((48 + n) as u8 - 48));
    } else {
        lemma_val_dec(n / 10);
        assert(dec(n).drop_last() =~= dec(n / 10));
        assert((48 + n % 10) as u8 == 48 + n % 10);
        assert(dec(n).last() == (48 + n % 10) as u8);
        assert(val(dec(n)) == val(dec(n / 10)) * 10 + ((48 + n % 10) as u8 - 48));
        assert(val(dec(n)) == (n / 10) * 10 + n % 10);
    }
}

/// The value of a digit string is not negative.
pub proof fn lemma_val_nonneg(s: Seq<u8>)
    requires
        forall|i: int| 0 <= i < s.len() ==> is_digit(#[trigger] s[i]),
    ensures
        val(s) >= 0,
    decreases s.len(),
{
    if s.len() > 0 {
        lemma_val_nonneg(s.drop_last());
    }
}

/// The first position at or after `i` that holds byte `b`, or the length.
pub open spec fn find_byte(s: Seq<u8>, b: u8, i: int) -> int
    decreases s.len() - i,
{
    if i < 0 || i >= s.len() || s[i] == b {
        i
    } else {
        find_byte(s, b, i + 1)
    }
}

/// The search stays within bounds, lands on `b` when it finds one, and skips
/// nothing.
pub proof fn lemma_find_byte(s: Seq<u8>, b: u8, i: int)
    requires
        0 <= i <= s.len(),
    ensures
        i <= find_byte(s, b, i) <= s.len(),
        find_byte(s, b, i) < s.len() ==> s[find_byte(s, b, i)] == b,
        forall|k: int| i <= k < find_byte(s, b, i) ==> s[k] != b,
    decreases s.len() - i,
{
    if i < s.len() && s[i] != b {
        lemma_find_byte(s, b, i + 1);
    }
}

/// The first position at or after `i` that holds no digit.
pub open spec fn digits_end(s: Seq<u8>, i: int) -> int
    decreases s.len() - i,
{
    if i < 0 || i >= s.len() || !is_digit(s[i]) {
        i
    } else {
        digits_end(s, i + 1)
    }
}

/// Where the digits of `s` run exactly from `i` to `j`, the scan stops at `j`.
pub proof fn lemma_digits_end(s: Seq<u8>, i: int, j: int)
    requires
        0 <= i <= j <= s.len(),
        forall|k: int| i <= k < j ==> is_digit(#[trigger] s[k]),
        j == s.len() || !is_digit(s[j]),
    ensures
        digits_end(s, i) == j,
    decreases j - i,
{
    if i < j {
        lemma_digits_end(s, i + 1, j);
    }
}

/// What a scan for an unsigned number finds at position `i`: the value of the
/// digit run that starts there and the position after it, if the run is
/// nonempty and its value fits the machine word.
pub open spec fn parse_u64_at(s: Seq<u8>, i: int) -> Option<(int, int)> {
    let j = digits_end(s, i);
    if j == i {
        None
    } else if val(s.subrange(i, j)) > u64::MAX {
        None
    } else {
        Some((val(s.subrange(i, j)), j))
    }
}

/// Prints `n` in decimal.
pub fn u64_to_dec(n: u64) -> (r: Vec<u8>)
    ensures
        r@ == dec(n as nat),
    decreases n,
{
    if n < 10 {
        let mut r: Vec<u8> = Vec::new();
        r.push(48 + n as u8);
        proof {
            assert(r@ =~= dec(n as nat));
        }
        r
    } else {
        let mut r = u64_to_dec(n / 10);
        r.push(48 + (n % 10) as u8);
        proof {
            assert(r@ =~= dec(n as nat));
        }
        r
    }
}

/// Scans an unsigned decimal number at position `i`.
pub fn scan_u64(s: &Vec<u8>, i: usize) -> (r: Option<(u64, usize)>)
    requires
        i <= s@.len(),
    ensures
        match r {
            Some((v, j)) => parse_u64_at(s@, i as int) == Some((v as int, j as int)) && i < j <= s@.len(),
            None => parse_u64_at(s@, i as int) is None,
        },
{
    let ghost gs = s@;
    let mut j: usize = i;
    let mut acc: u64 = 0;
    let mut overflow = false;
    while j < s.len() && s[j] >= 48 && s[j] <= 57
        invariant
            i <= j <= gs.len(),
            gs == s@,
            forall|k: int| i <= k < j ==> is_digit(#[trigger] gs[k]),
            digits_end(gs, i as int) == digits_end(gs, j as int),
            !overflow ==> acc == val(gs.subrange(i as int, j as int)),
            overflow ==> val(gs.subrange(i as int, j as int)) > u64::MAX,
        decreases gs.len() - j,
    {
        let d = s[j] - 48;
        proof {
            assert(is_digit(gs[j as int]));
            assert(digits_end(gs, j as int) == digits_end(gs, j + 1));
            assert(gs.subrange(i as int, j + 1).drop_last() =~= gs.subrange(i as int, j as int));
            assert(val(gs.subrange(i as int, j + 1)) == val(gs.subrange(i as int, j as int)) * 10
                + d);
            lemma_val_nonneg(gs.subrange(i as int, j as int));
        }
        if overflow {
        } else if acc > (u64::MAX - d as u64) / 10 {
            overflow = true;
            proof {
                assert(acc * 10 + d > u64::MAX) by (nonlinear_arith)
                    requires
                        acc > (u64::MAX - d as u64) / 10,
                        0 <= d <= 9,
                        0 <= acc,
                ;
            }
        } else {
            proof {
                assert(acc * 10 + d <= u64::MAX) by (nonlinear_arith)
                    requires
                        acc <= (u64::MAX - d as u64) / 10,
                        0 <= d <= 9,
                        0 <= acc,
                ;
            }
            acc = acc * 10 + d as u64;
        }
        j = j + 1;
    }
    proof {
        assert(j == gs.len() || !is_digit(gs[j as int]));
        assert(digits_end(gs, j as int) == j as int);
    }
    if j == i {
        None
    } else if overflow {
        None
    } else {
        Some((acc, j))
    }
}

} // verus!
