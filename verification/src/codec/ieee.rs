//! Conversion between the two IEEE-754 widths, on bit patterns.
//!
//! A number schema of one width accepts a value of the other. Widening is
//! exact. Narrowing rounds to the nearest single-precision number, ties to
//! the one with an even last digit; what is too large becomes infinity, what
//! is too small becomes zero. A NaN stays a NaN and is made quiet.

use vstd::arithmetic::power2::{
    lemma2_to64, lemma_pow2_adds, lemma_pow2_pos, lemma_pow2_strictly_increases,
    lemma_pow2_unfold, pow2,
};
use vstd::prelude::*;

verus! {

/// Doubles `m` until it reaches the place of the leading digit of a
/// single-precision number, lowering the exponent `e` by one each time.
pub open spec fn normalized(m: int, e: int) -> (int, int)
    decreases
            if m < 0x80_0000 {
                0x80_0000 - m
            } else {
                0
            },
{
    if m <= 0 || m >= 0x80_0000 {
        (m, e)
    } else {
        normalized(2 * m, e - 1)
    }
}

/// The double-precision bit pattern of the number that a single-precision
/// bit pattern stands for.
pub open spec fn widen_bits(bits: u32) -> u64 {
    let sign = (bits / 0x8000_0000) as int;
    let exp = ((bits / 0x80_0000) % 0x100) as int;
    let frac = (bits % 0x80_0000) as int;
    let magnitude = if exp == 0xFF {
        if frac == 0 {
            0x7FF0_0000_0000_0000
        } else {
            0x7FF8_0000_0000_0000 + (frac % 0x40_0000) * 0x2000_0000
        }
    } else if exp == 0 {
        if frac == 0 {
            0
        } else {
            let (m, e) = normalized(frac, 897);
            e * 0x10_0000_0000_0000 + (m - 0x80_0000) * 0x2000_0000
        }
    } else {
        (exp + 896) * 0x10_0000_0000_0000 + frac * 0x2000_0000
    };
    (sign * 0x8000_0000_0000_0000 + magnitude) as u64
}

/// Halves `q` a number of times, remembering the last digit dropped
/// (`round`) and whether any digit dropped before it was set (`sticky`).
pub open spec fn halved(q: int, round: bool, sticky: bool, times: nat) -> (int, bool, bool)
    decreases times,
{
    if times == 0 {
        (q, round, sticky)
    } else {
        halved(q / 2, q % 2 == 1, sticky || round, (times - 1) as nat)
    }
}

/// `m` with its last `times` binary digits dropped, rounded to nearest, a
/// tie going to the even neighbour.
pub open spec fn rounded_shift(m: int, times: nat) -> int {
    let (q, round, sticky) = halved(m, false, false, times);
    if round && (sticky || q % 2 == 1) {
        q + 1
    } else {
        q
    }
}

/// The single-precision bit pattern nearest to the number that a
/// double-precision bit pattern stands for.
pub open spec fn narrow_bits(bits: u64) -> u32 {
    let sign = (bits / 0x8000_0000_0000_0000) as int;
    let exp = ((bits / 0x10_0000_0000_0000) % 0x800) as int;
    let frac = (bits % 0x10_0000_0000_0000) as int;
    let magnitude = if exp == 0x7FF {
        if frac == 0 {
            0x7F80_0000
        } else {
            0x7FC0_0000 + (frac / 0x2000_0000) % 0x40_0000
        }
    } else if exp == 0 {
        0
    } else if exp >= 897 {
        let m = (exp - 897) * 0x80_0000 + rounded_shift(frac + 0x10_0000_0000_0000, 29);
        if m >= 0x7F80_0000 {
            0x7F80_0000
        } else {
            m
        }
    } else if 897 - exp > 25 {
        0
    } else {
        rounded_shift(frac + 0x10_0000_0000_0000, (29 + 897 - exp) as nat)
    };
    (sign * 0x8000_0000 + magnitude) as u32
}

/// Halving a number `times` times divides it by two to the power `times`.
proof fn lemma_halved_quotient(q: int, round: bool, sticky: bool, times: nat)
    requires
        0 <= q,
    ensures
        halved(q, round, sticky, times).0 == q / (pow2(times) as int),
    decreases times,
{
    lemma2_to64();
    if times > 0 {
        let p = pow2((times - 1) as nat) as int;
        lemma_halved_quotient(q / 2, q % 2 == 1, sticky || round, (times - 1) as nat);
        lemma_pow2_unfold(times);
        lemma_pow2_pos((times - 1) as nat);
        vstd::arithmetic::div_mod::lemma_div_denominator(q, 2, p);
        assert((q / 2) / p == q / (2 * p));
    } else {
        assert(q / 1 == q);
    }
}

/// Rounding adds at most one to the quotient.
proof fn lemma_rounded_bound(m: int, times: nat)
    requires
        0 <= m,
    ensures
        m / (pow2(times) as int) <= rounded_shift(m, times) <= m / (pow2(times) as int) + 1,
{
    lemma_halved_quotient(m, false, false, times);
}

/// Drops the last `times` binary digits of `m`, rounding to nearest, ties to even.
fn round_shift(m: u64, times: u32) -> (out: u64)
    requires
        m < 0x20_0000_0000_0000,
    ensures
        out == rounded_shift(m as int, times as nat),
{
    let mut q: u64 = m;
    let mut round: bool = false;
    let mut sticky: bool = false;
    let mut left: u32 = times;
    while left > 0
        invariant
            q <= m,
            halved(q as int, round, sticky, left as nat) == halved(
                m as int,
                false,
                false,
                times as nat,
            ),
        decreases left,
    {
        sticky = sticky || round;
        round = q % 2 == 1;
        q = q / 2;
        left -= 1;
    }
    if round && (sticky || q % 2 == 1) {
        q + 1
    } else {
        q
    }
}

/// While a subnormal fraction is being normalised, the exponent cannot run
/// out before the fraction reaches the leading place: each doubling takes
/// one from the exponent, and at most twenty-three doublings are needed.
spec fn spread(m: int, e: int) -> bool {
    (e == 897 && m >= 1) || (e == 896 && m >= 2) || (e == 895 && m >= 4) || (e == 894 && m >= 8)
        || (e == 893 && m >= 0x10) || (e == 892 && m >= 0x20) || (e == 891 && m >= 0x40) || (e
        == 890 && m >= 0x80) || (e == 889 && m >= 0x100) || (e == 888 && m >= 0x200) || (e == 887
        && m >= 0x400) || (e == 886 && m >= 0x800) || (e == 885 && m >= 0x1000) || (e == 884 && m
        >= 0x2000) || (e == 883 && m >= 0x4000) || (e == 882 && m >= 0x8000) || (e == 881 && m
        >= 0x1_0000) || (e == 880 && m >= 0x2_0000) || (e == 879 && m >= 0x4_0000) || (e == 878
        && m >= 0x8_0000) || (e == 877 && m >= 0x10_0000) || (e == 876 && m >= 0x20_0000) || (e
        == 875 && m >= 0x40_0000) || (e == 874 && m >= 0x80_0000)
}

/// Converts a single-precision bit pattern to double precision.
pub fn widen(bits: u32) -> (out: u64)
    ensures
        out == widen_bits(bits),
{
    let sign: u64 = (bits / 0x8000_0000) as u64;
    let exp: u64 = ((bits / 0x80_0000) % 0x100) as u64;
    let frac: u64 = (bits % 0x80_0000) as u64;
    let magnitude: u64 = if exp == 0xFF {
        if frac == 0 {
            0x7FF0_0000_0000_0000
        } else {
            0x7FF8_0000_0000_0000 + (frac % 0x40_0000) * 0x2000_0000
        }
    } else if exp == 0 {
        if frac == 0 {
            0
        } else {
            let mut m: u64 = frac;
            let mut e: u64 = 897;
            while m < 0x80_0000
                invariant
                    0 < m < 0x100_0000,
                    874 <= e <= 897,
                    normalized(m as int, e as int) == normalized(frac as int, 897),
                    spread(m as int, e as int),
                decreases
                        if m < 0x80_0000 {
                            0x80_0000 - m
                        } else {
                            0
                        },
            {
                m = m * 2;
                e = e - 1;
            }
            e * 0x10_0000_0000_0000 + (m - 0x80_0000) * 0x2000_0000
        }
    } else {
        (exp + 896) * 0x10_0000_0000_0000 + frac * 0x2000_0000
    };
    sign * 0x8000_0000_0000_0000 + magnitude
}

/// Converts a double-precision bit pattern to single precision.
pub fn narrow(bits: u64) -> (out: u32)
    ensures
        out == narrow_bits(bits),
{
    let sign: u64 = bits / 0x8000_0000_0000_0000;
    let exp: u64 = (bits / 0x10_0000_0000_0000) % 0x800;
    let frac: u64 = bits % 0x10_0000_0000_0000;
    let magnitude: u64 = if exp == 0x7FF {
        if frac == 0 {
            0x7F80_0000
        } else {
            0x7FC0_0000 + (frac / 0x2000_0000) % 0x40_0000
        }
    } else if exp == 0 {
        0
    } else if exp >= 897 {
        proof {
            lemma2_to64();
            lemma_rounded_bound(frac as int + 0x10_0000_0000_0000, 29);
        }
        let m: u64 = (exp - 897) * 0x80_0000 + round_shift(frac + 0x10_0000_0000_0000, 29);
        if m >= 0x7F80_0000 {
            0x7F80_0000
        } else {
            m
        }
    } else if 897 - exp > 25 {
        0
    } else {
        let times: u32 = (29 + 897 - exp) as u32;
        proof {
            lemma_rounded_small(frac as int + 0x10_0000_0000_0000, times as nat);
        }
        round_shift(frac + 0x10_0000_0000_0000, times)
    };
    (sign * 0x8000_0000 + magnitude) as u32
}

/// A number below 2^53 with thirty or more digits dropped is at most 2^23.
proof fn lemma_rounded_small(m: int, times: nat)
    requires
        0 <= m < 0x20_0000_0000_0000,
        times >= 30,
    ensures
        0 <= rounded_shift(m, times) <= 0x80_0000,
{
    lemma2_to64();
    lemma_rounded_bound(m, times);
    if times > 30 {
        lemma_pow2_strictly_increases(30, times);
    }
    let small = pow2(30) as int;
    let large = pow2(times) as int;
    assert(small == 0x4000_0000);
    vstd::arithmetic::div_mod::lemma_div_is_ordered_by_denominator(m, small, large);
    assert(m / large <= m / small);
    assert(m / small < 0x80_0000);
}

/// A number with `k` zero digits appended, halved `k` times, is the
/// number, and no digit that was dropped was set.
proof fn lemma_halved_exact(x: int, k: nat)
    requires
        0 <= x,
    ensures
        halved(x * pow2(k), false, false, k) == (x, false, false),
    decreases k,
{
    lemma2_to64();
    if k > 0 {
        let lower = x * pow2((k - 1) as nat);
        lemma_pow2_unfold(k);
        assert(x * pow2(k) == 2 * lower) by (nonlinear_arith)
            requires
                pow2(k) == 2 * pow2((k - 1) as nat),
                lower == x * pow2((k - 1) as nat),
        ;
        lemma_halved_exact(x, (k - 1) as nat);
    } else {
        assert(x * pow2(0) == x) by (nonlinear_arith)
            requires
                pow2(0) == 1,
        ;
    }
}

/// How many doublings bring a subnormal fraction to the leading place.
spec fn doublings(m: int) -> nat
    decreases
            if m < 0x80_0000 {
                0x80_0000 - m
            } else {
                0
            },
{
    if m <= 0 || m >= 0x80_0000 {
        0
    } else {
        1 + doublings(2 * m)
    }
}

/// Normalising multiplies the fraction by a power of two and takes the
/// exponent of that power from the exponent.
proof fn lemma_normalized(m: int, e: int)
    requires
        0 < m < 0x100_0000,
    ensures
        normalized(m, e) == (m * pow2(doublings(m)), e - doublings(m)),
        0x80_0000 <= m * pow2(doublings(m)) < 0x100_0000,
        m < 0x80_0000 ==> doublings(m) >= 1,
        m * pow2(doublings(m)) >= m,
    decreases
            if m < 0x80_0000 {
                0x80_0000 - m
            } else {
                0
            },
{
    lemma2_to64();
    if m >= 0x80_0000 {
        assert(m * pow2(0) == m) by (nonlinear_arith)
            requires
                pow2(0) == 1,
        ;
    } else {
        let j = doublings(2 * m);
        lemma_normalized(2 * m, e - 1);
        lemma_pow2_unfold(j + 1);
        assert(m * pow2(j + 1) == (2 * m) * pow2(j)) by (nonlinear_arith)
            requires
                pow2(j + 1) == 2 * pow2(j),
        ;
    }
}

/// A doubling count that keeps a fraction of at least one below 2^24 is at most 23.
proof fn lemma_doublings_bound(m: int, j: nat)
    requires
        1 <= m,
        m * pow2(j) < 0x100_0000,
    ensures
        j <= 23,
{
    lemma2_to64();
    if j >= 24 {
        if j > 24 {
            lemma_pow2_strictly_increases(24, j);
        }
        assert(m * pow2(j) >= pow2(j)) by (nonlinear_arith)
            requires
                m >= 1,
                pow2(j) >= 0,
        ;
    }
}

/// **Widening loses nothing.** A single-precision number that is widened
/// and narrowed again is the number it was, bit for bit; only a NaN may
/// come back as another NaN.
pub proof fn lemma_widen_then_narrow(bits: u32)
    requires
        (bits / 0x80_0000) % 0x100 != 0xFF || bits % 0x80_0000 == 0,
    ensures
        narrow_bits(widen_bits(bits)) == bits,
{
    lemma2_to64();
    let sign = (bits / 0x8000_0000) as int;
    let exp = ((bits / 0x80_0000) % 0x100) as int;
    let frac = (bits % 0x80_0000) as int;
    assert(bits == sign * 0x8000_0000 + exp * 0x80_0000 + frac);
    let wide = widen_bits(bits);
    let wide_exp: int = if exp == 0xFF {
        0x7FF
    } else if exp == 0 {
        if frac == 0 {
            0
        } else {
            897 - doublings(frac)
        }
    } else {
        exp + 896
    };
    let wide_frac: int = if exp == 0xFF || (exp == 0 && frac == 0) {
        0
    } else if exp == 0 {
        (frac * pow2(doublings(frac)) - 0x80_0000) * 0x2000_0000
    } else {
        frac * 0x2000_0000
    };
    if exp == 0 && frac != 0 {
        lemma_normalized(frac, 897);
        lemma_doublings_bound(frac, doublings(frac));
    }
    assert(0 <= wide_frac < 0x10_0000_0000_0000);
    assert(0 <= wide_exp < 0x800);
    assert(wide == sign * 0x8000_0000_0000_0000 + wide_exp * 0x10_0000_0000_0000 + wide_frac);
    assert(wide / 0x8000_0000_0000_0000 == sign);
    assert((wide / 0x10_0000_0000_0000) % 0x800 == wide_exp);
    assert(wide % 0x10_0000_0000_0000 == wide_frac);
    if exp != 0xFF && exp != 0 {
        let m = wide_frac + 0x10_0000_0000_0000;
        assert(m == (frac + 0x80_0000) * pow2(29));
        lemma_halved_exact(frac + 0x80_0000, 29);
        assert(rounded_shift(m, 29) == frac + 0x80_0000);
    } else if exp == 0 && frac != 0 {
        let j = doublings(frac);
        let lead = frac * pow2(j);
        let m = wide_frac + 0x10_0000_0000_0000;
        assert(m == lead * pow2(29));
        lemma_pow2_adds(j, 29);
        assert(m == frac * pow2(j + 29)) by (nonlinear_arith)
            requires
                m == lead * pow2(29),
                lead == frac * pow2(j),
                pow2(j + 29) == pow2(j) * pow2(29),
        ;
        lemma_halved_exact(frac, j + 29);
        assert(rounded_shift(m, j + 29) == frac);
        assert((29 + 897 - wide_exp) as nat == j + 29);
    }
}

} // verus!
