//! The exact sign of a sum of three numbers, each an integer times a power
//! of two, however far apart the powers lie.

use vstd::prelude::*;
use vstd::arithmetic::power2::{lemma2_to64, lemma2_to64_rest, lemma_pow2_adds, lemma_pow2_pos};
use vstd::arithmetic::power2::{lemma_pow2_strictly_increases, lemma_pow2_unfold, pow2};

verus! {

/// The number `m * 2^e`.
pub open spec fn scaled(m: int, e: nat) -> int {
    m * pow2(e)
}

/// Whether `m` lies strictly between `-2^33` and `2^33`.
pub open spec fn is_small(m: int) -> bool {
    -0x2_0000_0000 < m < 0x2_0000_0000
}

/// A term of size at least `unit` decides the sign of its sum with anything
/// smaller than `unit`.
proof fn lemma_leading_term_decides(lead: int, unit: int, rest: int)
    requires
        lead != 0,
        unit > 0,
        -unit < rest < unit,
    ensures
        (lead * unit + rest >= 0) == (lead > 0),
{
    if lead > 0 {
        assert(lead * unit >= unit) by (nonlinear_arith)
            requires
                lead >= 1,
                unit > 0,
        ;
    } else {
        assert(lead * unit <= -unit) by (nonlinear_arith)
            requires
                lead <= -1,
                unit > 0,
        ;
    }
}

/// A small integer times a power of two stays below `2^33` times that power.
proof fn lemma_small_term(m: int, e: nat)
    requires
        is_small(m),
    ensures
        -0x2_0000_0000 * pow2(e) < scaled(m, e) < 0x2_0000_0000 * pow2(e),
{
    lemma_pow2_pos(e);
    let p = pow2(e) as int;
    assert(-0x2_0000_0000 * p < m * p < 0x2_0000_0000 * p) by (nonlinear_arith)
        requires
            -0x2_0000_0000 < m < 0x2_0000_0000,
            p > 0,
    ;
}

/// The power of two `gap` places above `2^e`, and how the two compare.
proof fn lemma_pow2_gap(e: nat, gap: nat, least: nat)
    requires
        least <= gap,
    ensures
        pow2(e + gap) == pow2(gap) * pow2(e),
        pow2(least) <= pow2(gap),
        pow2(e) <= pow2(e + gap),
{
    lemma_pow2_adds(gap, e);
    if least < gap {
        lemma_pow2_strictly_increases(least, gap);
    }
    if gap > 0 {
        lemma_pow2_strictly_increases(e, e + gap);
    }
}

/// `2^g` for a small `g`.
fn power_of_two(g: u32) -> (p: i128)
    requires
        g <= 35,
    ensures
        p == pow2(g as nat),
        1 <= p <= 0x8_0000_0000,
{
    proof {
        lemma2_to64();
        lemma2_to64_rest();
    }
    let mut p: i128 = 1;
    let mut i: u32 = 0;
    while i < g
        invariant
            i <= g <= 35,
            p == pow2(i as nat),
            1 <= p <= 0x8_0000_0000,
            pow2(35) == 0x8_0000_0000,
        decreases g - i,
    {
        proof {
            lemma_pow2_unfold((i + 1) as nat);
            if i + 1 < 35 {
                lemma_pow2_strictly_increases((i + 1) as nat, 35);
            }
        }
        p = p * 2;
        i = i + 1;
    }
    p
}

/// Whether `m1 * 2^e1 + m2 * 2^e2 + m3 * 2^e3` is at least zero, for powers
/// given from the greatest down.
fn ordered_sum_is_nonnegative(m1: i64, e1: u32, m2: i64, e2: u32, m3: i64, e3: u32) -> (out: bool)
    requires
        is_small(m1 as int),
        is_small(m2 as int),
        is_small(m3 as int),
        e1 >= e2 >= e3,
    ensures
        out == (scaled(m1 as int, e1 as nat) + scaled(m2 as int, e2 as nat) + scaled(
            m3 as int,
            e3 as nat,
        ) >= 0),
{
    let g1: u32 = e1 - e2;
    let g2: u32 = e2 - e3;
    let ghost p1 = pow2(e1 as nat) as int;
    let ghost p2 = pow2(e2 as nat) as int;
    let ghost p3 = pow2(e3 as nat) as int;
    proof {
        lemma2_to64_rest();
        lemma_pow2_pos(e1 as nat);
        lemma_pow2_pos(e2 as nat);
        lemma_pow2_pos(e3 as nat);
        lemma_small_term(m2 as int, e2 as nat);
        lemma_small_term(m3 as int, e3 as nat);
        lemma_pow2_gap(e3 as nat, g2 as nat, 0);
    }
    if m1 != 0 && g1 > 35 {
        proof {
            lemma_pow2_gap(e2 as nat, g1 as nat, 36);
            let pg = pow2(g1 as nat) as int;
            assert(0x4_0000_0000 * p2 < pg * p2) by (nonlinear_arith)
                requires
                    pg >= 0x10_0000_0000,
                    p2 > 0,
            ;
            let rest = scaled(m2 as int, e2 as nat) + scaled(m3 as int, e3 as nat);
            lemma_leading_term_decides(m1 as int, p1, rest);
        }
        return m1 > 0;
    }
    let acc: i128 = if m1 == 0 {
        m2 as i128
    } else {
        let pg = power_of_two(g1);
        assert(-0x10_0000_0000_0000_0000 < m1 * pg < 0x10_0000_0000_0000_0000) by (nonlinear_arith)
            requires
                -0x2_0000_0000 < m1 < 0x2_0000_0000,
                1 <= pg <= 0x8_0000_0000,
        ;
        (m1 as i128) * pg + (m2 as i128)
    };
    proof {
        lemma_pow2_gap(e2 as nat, g1 as nat, 0);
        let pg = pow2(g1 as nat) as int;
        assert((m1 * pg + m2) * p2 == m1 * (pg * p2) + m2 * p2) by (nonlinear_arith);
        assert(acc * p2 == scaled(m1 as int, e1 as nat) + scaled(m2 as int, e2 as nat));
    }
    if acc != 0 && g2 > 34 {
        proof {
            lemma_pow2_gap(e3 as nat, g2 as nat, 35);
            let pg = pow2(g2 as nat) as int;
            assert(0x2_0000_0000 * p3 < pg * p3) by (nonlinear_arith)
                requires
                    pg >= 0x8_0000_0000,
                    p3 > 0,
            ;
            lemma_leading_term_decides(acc as int, p2, scaled(m3 as int, e3 as nat));
        }
        return acc > 0;
    }
    let total: i128 = if acc == 0 {
        m3 as i128
    } else {
        let pg = power_of_two(g2);
        assert(-0x1000_0000_0000_0000_0000_0000_0000 < acc * pg < 0x1000_0000_0000_0000_0000_0000_0000)
            by (nonlinear_arith)
            requires
                -0x20_0000_0000_0000_0000 < acc < 0x20_0000_0000_0000_0000,
                1 <= pg <= 0x8_0000_0000,
        ;
        acc * pg + (m3 as i128)
    };
    proof {
        let pg = pow2(g2 as nat) as int;
        assert((acc * pg + m3) * p3 == acc * (pg * p3) + m3 * p3) by (nonlinear_arith);
        assert(total * p3 == acc * p2 + scaled(m3 as int, e3 as nat));
        assert((total * p3 >= 0) == (total >= 0)) by (nonlinear_arith)
            requires
                p3 > 0,
        ;
    }
    total >= 0
}

/// Whether `m1 * 2^e1 + m2 * 2^e2 + m3 * 2^e3` is at least zero. The answer
/// is exact: nothing is rounded, whatever the three powers.
pub fn sum_is_nonnegative(m1: i64, e1: u32, m2: i64, e2: u32, m3: i64, e3: u32) -> (out: bool)
    requires
        is_small(m1 as int),
        is_small(m2 as int),
        is_small(m3 as int),
    ensures
        out == (scaled(m1 as int, e1 as nat) + scaled(m2 as int, e2 as nat) + scaled(
            m3 as int,
            e3 as nat,
        ) >= 0),
{
    if e1 >= e2 {
        if e2 >= e3 {
            ordered_sum_is_nonnegative(m1, e1, m2, e2, m3, e3)
        } else if e1 >= e3 {
            ordered_sum_is_nonnegative(m1, e1, m3, e3, m2, e2)
        } else {
            ordered_sum_is_nonnegative(m3, e3, m1, e1, m2, e2)
        }
    } else {
        if e1 >= e3 {
            ordered_sum_is_nonnegative(m2, e2, m1, e1, m3, e3)
        } else if e2 >= e3 {
            ordered_sum_is_nonnegative(m2, e2, m3, e3, m1, e1)
        } else {
            ordered_sum_is_nonnegative(m3, e3, m2, e2, m1, e1)
        }
    }
}

} // verus!
