//! Elevations: 32-bit binary floating-point numbers, carried as the
//! integers that order like them.
//!
//! A *sample* is the bit pattern of the number's magnitude, negated where
//! the number is negative. Samples order exactly as the numbers do, both
//! zeros are sample 0, and the sample gives the bit pattern back.
//!
//! Only finite numbers have a sample. An infinity, or a pattern that is not
//! a number, has no value that min-max scaling could place between two
//! extremes, so `sample_from_bits` gives `None` for it: whoever reads tiles
//! from files refuses a map that holds one rather than drawing it.

use vstd::prelude::*;
use vstd::arithmetic::power2::{lemma_pow2_pos, lemma_pow2_strictly_increases, lemma_pow2_unfold, pow2};

verus! {

/// The sample of the greatest finite number.
pub const MAX_FINITE_SAMPLE: i32 = 0x7f7f_ffff;

/// The magnitude written by the 31 bits `m` below the sign bit, as a count
/// of units of 2^-149, the least positive number of the format: the low 23
/// bits are the fraction, the bits above them the exponent field. With
/// exponent field 0 the count is the fraction; with exponent field `e > 0`
/// it is `2^23 + fraction`, doubled `e - 1` times.
pub open spec fn magnitude_units(m: nat) -> nat {
    let e = m / 0x80_0000;
    let f = m % 0x80_0000;
    if e == 0 {
        f
    } else {
        (0x80_0000 + f) * pow2((e - 1) as nat)
    }
}

/// The number that a sample stands for, as a count of units of 2^-149.
pub open spec fn sample_units(sample: int) -> int {
    if sample < 0 {
        -(magnitude_units((-sample) as nat) as int)
    } else {
        magnitude_units(sample as nat) as int
    }
}

/// Whether the sample stands for a finite number.
pub open spec fn is_finite_sample(sample: int) -> bool {
    -0x7f7f_ffff <= sample <= 0x7f7f_ffff
}

/// The sample of the number with the given bit pattern: the 31 bits below
/// the sign bit, negated where the sign bit is set. `None` for the patterns
/// of the infinities and of what is not a number.
pub open spec fn sample_of_bits(bits: u32) -> Option<i32> {
    let m = bits % 0x8000_0000;
    if m > 0x7f7f_ffff {
        None
    } else if bits >= 0x8000_0000 {
        Some((-(m as int)) as i32)
    } else {
        Some(m as i32)
    }
}

/// The bit pattern of the number that a finite sample stands for; of the
/// two zeros, the positive one.
pub open spec fn bits_of_sample(sample: i32) -> Option<u32> {
    if !is_finite_sample(sample as int) {
        None
    } else if sample < 0 {
        Some((0x8000_0000 - sample) as u32)
    } else {
        Some(sample as u32)
    }
}

/// A greater magnitude pattern writes a greater magnitude.
pub proof fn lemma_magnitude_units_increasing(a: nat, b: nat)
    requires
        a < b,
    ensures
        magnitude_units(a) < magnitude_units(b),
{
    let k: int = 0x80_0000;
    let ea = a / 0x80_0000;
    let fa = a % 0x80_0000;
    let eb = b / 0x80_0000;
    let fb = b % 0x80_0000;
    assert(ea <= eb);
    if ea == eb {
        if ea != 0 {
            let p = pow2((ea - 1) as nat) as int;
            lemma_pow2_pos((ea - 1) as nat);
            assert((k + fa) * p < (k + fb) * p) by (nonlinear_arith)
                requires
                    fa < fb,
                    p > 0,
            ;
        }
    } else {
        let q = pow2((eb - 1) as nat) as int;
        lemma_pow2_pos((eb - 1) as nat);
        assert(k * 1 <= (k + fb) * q) by (nonlinear_arith)
            requires
                0 <= fb,
                q >= 1,
                k > 0,
        ;
        if ea != 0 {
            let p = pow2((ea - 1) as nat) as int;
            lemma_pow2_pos((ea - 1) as nat);
            lemma_pow2_unfold(ea as nat);
            if ea < eb - 1 {
                lemma_pow2_strictly_increases(ea as nat, (eb - 1) as nat);
            }
            assert(pow2(ea as nat) <= q);
            assert((k + fa) * p < k * (2 * p)) by (nonlinear_arith)
                requires
                    fa < k,
                    p > 0,
            ;
            assert(k * (2 * p) <= k * q) by (nonlinear_arith)
                requires
                    2 * p <= q,
                    k > 0,
            ;
            assert(k * q <= (k + fb) * q) by (nonlinear_arith)
                requires
                    0 <= fb,
                    q > 0,
            ;
        }
    }
}

/// Samples order as the numbers that they stand for.
pub proof fn lemma_sample_units_increasing(a: int, b: int)
    requires
        a < b,
    ensures
        sample_units(a) < sample_units(b),
{
    if a < 0 {
        if b < 0 {
            lemma_magnitude_units_increasing((-b) as nat, (-a) as nat);
        } else {
            lemma_magnitude_units_increasing(0, (-a) as nat);
        }
    } else {
        lemma_magnitude_units_increasing(a as nat, b as nat);
    }
}

/// A finite sample and its bit pattern give each other back, and so does
/// every bit pattern of a finite number but that of the negative zero.
pub proof fn lemma_sample_round_trip(sample: i32, bits: u32)
    ensures
        is_finite_sample(sample as int) ==> (bits_of_sample(sample) matches Some(b) && sample_of_bits(b)
            == Some(sample)),
        sample_of_bits(bits) matches Some(s) ==> (is_finite_sample(s as int) && (bits != 0x8000_0000
            ==> bits_of_sample(s) == Some(bits))),
        sample_of_bits(0x8000_0000) == Some(0i32),
{
}

/// The sample of the number with the given bit pattern.
pub fn sample_from_bits(bits: u32) -> (out: Option<i32>)
    ensures
        out == sample_of_bits(bits),
{
    let m: u32 = bits % 0x8000_0000;
    if m > 0x7f7f_ffff {
        None
    } else if bits >= 0x8000_0000 {
        Some(0 - (m as i32))
    } else {
        Some(m as i32)
    }
}

/// The bit pattern of the number that a finite sample stands for.
pub fn sample_to_bits(sample: i32) -> (out: Option<u32>)
    ensures
        out == bits_of_sample(sample),
{
    if sample < -MAX_FINITE_SAMPLE || sample > MAX_FINITE_SAMPLE {
        None
    } else if sample < 0 {
        Some(0x8000_0000u32 + ((0 - sample) as u32))
    } else {
        Some(sample as u32)
    }
}

/// Splits a sample into a signed significand and the number of times it
/// is doubled.
pub fn sample_parts(sample: i32) -> (out: (i64, u32))
    ensures
        sample_units(sample as int) == out.0 * pow2(out.1 as nat),
        -0x100_0000 < out.0 < 0x100_0000,
        out.1 <= 255,
        (out.0 < 0) == (sample < 0),
{
    let m: i64 = if sample < 0 {
        0 - (sample as i64)
    } else {
        sample as i64
    };
    let e: i64 = m / 0x80_0000;
    let f: i64 = m % 0x80_0000;
    proof {
        vstd::arithmetic::power2::lemma2_to64();
        assert(pow2(0) == 1);
        if sample < 0 {
            assert(((-(sample as int)) as nat) == m);
        } else {
            assert((sample as int) as nat == m);
        }
        assert(magnitude_units(m as nat) == if e == 0 {
            f as nat
        } else {
            ((0x80_0000 + f) * pow2((e - 1) as nat)) as nat
        });
    }
    if e == 0 {
        if sample < 0 {
            assert(sample_units(sample as int) == (0 - f) * pow2(0));
            (0 - f, 0)
        } else {
            assert(sample_units(sample as int) == f * pow2(0));
            (f, 0)
        }
    } else {
        let significand: i64 = 0x80_0000 + f;
        let shift: u32 = (e - 1) as u32;
        proof {
            let p = pow2(shift as nat) as int;
            assert(magnitude_units(m as nat) == significand * p);
            assert((0 - significand) * p == -(significand * p)) by (nonlinear_arith);
        }
        if sample < 0 {
            assert(sample_units(sample as int) == (0 - significand) * pow2(shift as nat));
            (0 - significand, shift)
        } else {
            assert(sample_units(sample as int) == significand * pow2(shift as nat));
            (significand, shift)
        }
    }
}

} // verus!
