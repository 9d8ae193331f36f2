use vstd::prelude::*;

use vstd::arithmetic::div_mod::{lemma_fundamental_div_mod, lemma_fundamental_div_mod_converse};

verus! {

/// `round(s / n)` with halves rounded away from zero: the rounding that the
/// aggregate endpoints apply to each bucket average.
pub open spec fn rha(s: int, n: int) -> int
    recommends
        n > 0,
{
    if s >= 0 {
        (2 * s + n) / (2 * n)
    } else {
        -((2 * (-s) + n) / (2 * n))
    }
}

/// For a non-negative dividend, rounding half away from zero adds one to the
/// floor quotient exactly when twice the remainder reaches the divisor.
pub proof fn lemma_round_formula(mag: int, n: int)
    requires
        n > 0,
        mag >= 0,
    ensures
        rha(mag, n) == mag / n + if 2 * (mag % n) >= n {
            1int
        } else {
            0int
        },
{
    let q = mag / n;
    let r = mag % n;
    lemma_fundamental_div_mod(mag, n);
    if 2 * r >= n {
        assert(2 * mag + n == (q + 1) * (2 * n) + (2 * r - n)) by (nonlinear_arith)
            requires
                mag == n * q + r,
        ;
        lemma_fundamental_div_mod_converse(2 * mag + n, 2 * n, q + 1, 2 * r - n);
    } else {
        assert(2 * mag + n == q * (2 * n) + (2 * r + n)) by (nonlinear_arith)
            requires
                mag == n * q + r,
        ;
        lemma_fundamental_div_mod_converse(2 * mag + n, 2 * n, q, 2 * r + n);
    }
}

/// The rounded average over `n` values each at most `bound` stays at most
/// `bound`.
proof fn lemma_rounded_quotient_bound(mag: int, n: int, bound: int)
    requires
        n > 0,
        0 <= mag <= n * bound,
        bound >= 0,
    ensures
        mag / n + if 2 * (mag % n) >= n {
            1int
        } else {
            0int
        } <= bound,
{
    let q = mag / n;
    let r = mag % n;
    lemma_fundamental_div_mod(mag, n);
    if 2 * r >= n {
        assert(q < bound) by (nonlinear_arith)
            requires
                mag == n * q + r,
                r >= 1,
                n > 0,
                q >= 0,
                mag <= n * bound,
        ;
    } else {
        assert(q <= bound) by (nonlinear_arith)
            requires
                mag == n * q + r,
                r >= 0,
                n > 0,
                q >= 0,
                mag <= n * bound,
        ;
    }
}

/// The rounded mean of `n` values that sum to `s`, each within `[lo, hi]`,
/// stays within `[lo, hi]`.
pub proof fn lemma_rha_range(s: int, n: int, lo: int, hi: int)
    requires
        n > 0,
        lo <= 0 <= hi,
        n * lo <= s,
        s <= n * hi,
    ensures
        lo <= rha(s, n) <= hi,
{
    if s >= 0 {
        lemma_round_formula(s, n);
        lemma_rounded_quotient_bound(s, n, hi);
        vstd::arithmetic::div_mod::lemma_div_pos_is_pos(s, n);
    } else {
        let m = -s;
        assert(m <= n * (-lo)) by (nonlinear_arith)
            requires
                n * lo <= s,
                m == -s,
        ;
        lemma_round_formula(m, n);
        lemma_rounded_quotient_bound(m, n, -lo);
        vstd::arithmetic::div_mod::lemma_div_pos_is_pos(m, n);
    }
}

/// Rounded mean of `n` signed values given as the sum `pos` of the
/// non-negative ones and the sum `neg` of the magnitudes of the negative
/// ones. Halves round away from zero.
pub fn round_avg(pos: u128, neg: u128, n: usize) -> (r: i32)
    requires
        n >= 1,
        pos as int <= n as int * 0x7fff_ffff,
        neg as int <= n as int * 0x8000_0000,
    ensures
        r as int == rha(pos as int - neg as int, n as int),
{
    let nn: u128 = n as u128;
    if pos >= neg {
        let mag: u128 = pos - neg;
        let q: u128 = mag / nn;
        let rm: u128 = mag % nn;
        proof {
            lemma_round_formula(mag as int, nn as int);
            lemma_rounded_quotient_bound(mag as int, nn as int, 0x7fff_ffff);
        }
        let rounded: u128 = if rm * 2 >= nn {
            q + 1
        } else {
            q
        };
        rounded as i32
    } else {
        let mag: u128 = neg - pos;
        let q: u128 = mag / nn;
        let rm: u128 = mag % nn;
        proof {
            lemma_round_formula(mag as int, nn as int);
            lemma_rounded_quotient_bound(mag as int, nn as int, 0x8000_0000);
        }
        let rounded: u128 = if rm * 2 >= nn {
            q + 1
        } else {
            q
        };
        (-(rounded as i64)) as i32
    }
}

} // verus!
