//! Exact pari-mutuel division: `floor(a * b / d)` on 128-bit words with the
//! numerator taken at full precision, so a large pool never overflows an
//! intermediate product.

use vstd::prelude::*;
use vstd::arithmetic::div_mod::lemma_basic_div;
use vstd::arithmetic::div_mod::lemma_div_denominator;
use vstd::arithmetic::div_mod::lemma_div_is_ordered;
use vstd::arithmetic::div_mod::lemma_div_is_ordered_by_denominator;
use vstd::arithmetic::div_mod::lemma_fundamental_div_mod;
use vstd::arithmetic::div_mod::lemma_fundamental_div_mod_converse_div;
use vstd::arithmetic::div_mod::lemma_hoist_over_denominator;
use vstd::arithmetic::mul::lemma_mul_inequality;
use vstd::arithmetic::power2::lemma2_to64;
use vstd::arithmetic::power2::lemma2_to64_rest;
use vstd::arithmetic::power2::lemma_pow2_adds;
use vstd::arithmetic::power2::lemma_pow2_pos;
use vstd::arithmetic::power2::pow2;

verus! {

/// The highest bit of a 128-bit word, `pow2(127)`.
pub const TOP_BIT: u128 = 0x8000_0000_0000_0000_0000_0000_0000_0000;

proof fn lemma_pow2_127_128()
    ensures
        pow2(127) == TOP_BIT,
        pow2(128) == 0x1_0000_0000_0000_0000_0000_0000_0000_0000,
{
    lemma2_to64();
    lemma2_to64_rest();
    lemma_pow2_adds(64, 63);
    lemma_pow2_adds(64, 64);
}

/// `floor(a * c / d)` for `c < d`, computed bit by bit over `a` so that no
/// intermediate value outgrows a 128-bit word: the pair `(q, rem)` walks the
/// bits of `a` most-significant first, keeping `q * d + rem` equal to the
/// prefix of `a` seen so far times `c`.
fn mul_mod_div(a: u128, c: u128, d: u128) -> (r: u128)
    requires
        0 < d,
        c < d,
    ensures
        r == (a as int * c as int) / (d as int),
{
    let mut q: u128 = 0;
    let mut rem: u128 = 0;
    let mut mask: u128 = TOP_BIT;
    proof {
        lemma_pow2_127_128();
        assert(a < pow2(128));
        lemma_basic_div(a as int, pow2(128) as int);
        vstd::arithmetic::mul::lemma_mul_by_zero_is_zero(c as int);
        assert((a as int / pow2(128) as int) * (c as int) == 0);
    }
    for i in 0..128usize
        invariant
            0 < d,
            c < d,
            i < 128 ==> mask == pow2((127 - i) as nat),
            q as int * d as int + rem as int == (a as int / pow2((128 - i) as nat) as int) * (
            c as int),
            rem < d,
    {
        proof {
            lemma_pow2_pos((127 - i) as nat);
        }
        let ghost prefix = a as int / pow2((128 - i) as nat) as int;
        let ghost prefix2 = a as int / pow2((127 - i) as nat) as int;
        let bit: bool = (a / mask) % 2 == 1;
        proof {
            // The new prefix doubles the old one and brings in the next bit.
            lemma_pow2_adds((127 - i) as nat, 1);
            lemma2_to64();
            lemma_div_denominator(a as int, pow2((127 - i) as nat) as int, 2);
            lemma_fundamental_div_mod(prefix2, 2);
            assert(prefix2 == 2 * prefix + (if bit {
                1int
            } else {
                0int
            }));
            // Headroom for the doubled quotient.
            if prefix > 0 {
                assert(q < prefix) by (nonlinear_arith)
                    requires
                        (q as int) * (d as int) + (rem as int) == prefix * (c as int),
                        rem >= 0,
                        c < d,
                        0 < d,
                        prefix > 0,
                ;
                lemma_pow2_unfold_ge_two((128 - i) as nat);
                lemma_div_is_ordered_by_denominator(a as int, 2, pow2((128 - i) as nat) as int);
                assert(prefix <= a as int / 2);
                lemma_fundamental_div_mod(a as int, 2);
                assert(2 * q + 2 <= a as int + 1);
            } else {
                assert(q == 0 && rem == 0) by (nonlinear_arith)
                    requires
                        (q as int) * (d as int) + (rem as int) == prefix * (c as int),
                        prefix == 0,
                        rem >= 0,
                        0 < d,
                        q >= 0,
                ;
            }
        }
        let carry: bool = rem >= d - rem;
        let q2: u128 = if carry {
            2 * q + 1
        } else {
            2 * q
        };
        let rem2: u128 = if carry {
            rem - (d - rem)
        } else {
            rem + rem
        };
        proof {
            assert(q2 as int * d as int + rem2 as int == 2 * (q as int * d as int + rem as int))
                by (nonlinear_arith)
                requires
                    carry ==> (q2 == 2 * q + 1 && rem2 == 2 * rem - d && d > 0),
                    !carry ==> (q2 == 2 * q && rem2 == 2 * rem),
            ;
        }
        let q3: u128;
        let rem3: u128;
        if bit {
            if rem2 >= d - c {
                q3 = q2 + 1;
                rem3 = rem2 - (d - c);
            } else {
                q3 = q2;
                rem3 = rem2 + c;
            }
            proof {
                assert(q3 as int * d as int + rem3 as int == q2 as int * d as int + rem2 as int
                    + c as int) by (nonlinear_arith)
                    requires
                        (q3 == q2 + 1 && rem3 == rem2 + c - d && d > 0) || (q3 == q2 && rem3
                            == rem2 + c),
                ;
            }
        } else {
            q3 = q2;
            rem3 = rem2;
        }
        proof {
            assert((q3 as int) * (d as int) + rem3 as int == 2 * ((q as int) * (d as int)
                + rem as int) + (if bit {
                c as int
            } else {
                0int
            })) by {
                vstd::arithmetic::mul::lemma_mul_basics(c as int);
            }
            let b = if bit {
                1int
            } else {
                0int
            };
            assert((q3 as int) * (d as int) + rem3 as int == prefix2 * (c as int))
                by (nonlinear_arith)
                requires
                    (q3 as int) * (d as int) + rem3 as int == 2 * ((q as int) * (d as int)
                        + rem as int) + b * (c as int),
                    (q as int) * (d as int) + rem as int == prefix * (c as int),
                    prefix2 == 2 * prefix + b,
            ;
        }
        q = q3;
        rem = rem3;
        mask = mask / 2;
        proof {
            if i < 127 {
                lemma_pow2_unfold_ge_two((127 - i) as nat);
                assert(pow2((127 - i) as nat) == 2 * pow2((126 - i) as nat)) by {
                    lemma_pow2_adds((126 - i) as nat, 1);
                    lemma2_to64();
                }
                assert(mask == pow2((126 - i) as nat));
            }
        }
    }
    proof {
        lemma2_to64();
        assert(pow2(0) == 1);
        assert(a as int / 1 == a as int);
        lemma_fundamental_div_mod_converse_div(
            a as int * c as int,
            d as int,
            q as int,
            rem as int,
        );
    }
    q
}

proof fn lemma_pow2_unfold_ge_two(e: nat)
    requires
        e >= 1,
    ensures
        pow2(e) == 2 * pow2((e - 1) as nat),
        pow2(e) >= 2,
{
    lemma_pow2_adds((e - 1) as nat, 1);
    lemma2_to64();
    lemma_pow2_pos((e - 1) as nat);
}

/// `floor(a * b / d)`, exact, with the numerator at full precision. The
/// precondition `a <= d` is the pari-mutuel shape — a part never exceeds the
/// whole it is divided by — and bounds the result by `b`.
pub fn mul_div(a: u128, b: u128, d: u128) -> (r: u128)
    requires
        0 < d,
        a <= d,
    ensures
        r == (a as int * b as int) / (d as int),
        r <= b,
{
    let q0: u128 = b / d;
    let r0: u128 = b % d;
    proof {
        lemma_fundamental_div_mod(b as int, d as int);
        // a * q0 fits: a * q0 <= d * q0 <= b.
        lemma_mul_inequality(a as int, d as int, q0 as int);
        assert(d as int * q0 as int <= b as int);
        vstd::arithmetic::mul::lemma_mul_is_commutative(a as int, q0 as int);
        vstd::arithmetic::mul::lemma_mul_is_commutative(d as int, q0 as int);
    }
    let base: u128 = a * q0;
    let frac: u128 = mul_mod_div(a, r0, d);
    proof {
        // a * b == a * r0 + (a * q0) * d, so the quotients line up.
        lemma_hoist_over_denominator(a as int * r0 as int, (a * q0) as int, d as nat);
        assert(a as int * r0 as int + (a as int * q0 as int) * d as int == a as int * b as int)
            by (nonlinear_arith)
            requires
                b as int == d as int * q0 as int + r0 as int,
        ;
        // The result is bounded by b.
        lemma_mul_inequality(a as int, d as int, b as int);
        lemma_div_is_ordered(a as int * b as int, d as int * b as int, d as int);
        vstd::arithmetic::mul::lemma_mul_is_commutative(d as int, b as int);
        vstd::arithmetic::div_mod::lemma_div_by_multiple(b as int, d as int);
        assert((a as int * b as int) / (d as int) <= b as int);
        // frac == (a * r0) / d and base + frac == (a * b) / d.
        vstd::arithmetic::div_mod::lemma_div_pos_is_pos(a as int * r0 as int, d as int);
        assert(a as int * r0 as int >= 0) by {
            vstd::arithmetic::mul::lemma_mul_nonnegative(a as int, r0 as int);
        }
    }
    base + frac
}

} // verus!
