//! Decimal literals in the integer domain: moving the decimal point of a
//! literal and cutting off what is left behind it.

use vstd::prelude::*;
use vstd::arithmetic::power::{lemma_pow0, lemma_pow1, lemma_pow_adds, pow};

verus! {

/// `acc` followed by the first `places` digits of `fraction`, read as one
/// decimal number. Where the fraction runs out, zeros follow.
pub open spec fn shifted_left(acc: int, fraction: Seq<u8>, places: nat) -> int
    decreases places,
{
    if places == 0 {
        acc
    } else if fraction.len() > 0 {
        shifted_left(acc * 10 + fraction[0], fraction.skip(1), (places - 1) as nat)
    } else {
        shifted_left(acc * 10, fraction, (places - 1) as nat)
    }
}

/// `acc` without its last `places` decimal digits.
pub open spec fn shifted_right(acc: int, places: nat) -> int
    decreases places,
{
    if places == 0 {
        acc
    } else {
        shifted_right(acc / 10, (places - 1) as nat)
    }
}

/// The integer part of `whole.fraction` times ten to the `exponent`, and
/// `i32::MAX` where that is larger.
pub open spec fn truncated(whole: int, fraction: Seq<u8>, exponent: int) -> int {
    if exponent >= 0 {
        let full = shifted_left(whole, fraction, exponent as nat);
        if full > i32::MAX {
            i32::MAX as int
        } else {
            full
        }
    } else {
        shifted_right(whole, (-exponent) as nat)
    }
}

/// Moving the point to the right never makes a number smaller.
pub proof fn lemma_shifted_left_grows(acc: int, fraction: Seq<u8>, places: nat)
    requires
        acc >= 0,
    ensures
        shifted_left(acc, fraction, places) >= acc,
    decreases places,
{
    if places > 0 {
        if fraction.len() > 0 {
            lemma_shifted_left_grows(acc * 10 + fraction[0], fraction.skip(1), (places - 1) as nat);
        } else {
            lemma_shifted_left_grows(acc * 10, fraction, (places - 1) as nat);
        }
    }
}

/// Zero without a fraction stays zero wherever the point goes.
pub proof fn lemma_shifted_left_zero(places: nat)
    ensures
        shifted_left(0, Seq::<u8>::empty(), places) == 0,
    decreases places,
{
    if places > 0 {
        lemma_shifted_left_zero((places - 1) as nat);
    }
}

/// Zero stays zero when digits are cut off.
pub proof fn lemma_shifted_right_zero(places: nat)
    ensures
        shifted_right(0, places) == 0,
    decreases places,
{
    if places > 0 {
        lemma_shifted_right_zero((places - 1) as nat);
    }
}

/// Without a fraction, moving the point `places` to the right multiplies
/// by ten to the power of `places`.
pub proof fn law_shifted_left_is_a_power_of_ten(acc: int, places: nat)
    ensures
        shifted_left(acc, Seq::<u8>::empty(), places) == acc * pow(10, places),
    decreases places,
{
    if places == 0 {
        lemma_pow0(10);
    } else {
        let less = (places - 1) as nat;
        law_shifted_left_is_a_power_of_ten(acc * 10, less);
        lemma_pow1(10);
        lemma_pow_adds(10, 1, less);
        assert(acc * 10 * pow(10, less) == acc * (10 * pow(10, less))) by (nonlinear_arith);
    }
}

/// Moving the point `places` to the left divides by ten to the power of
/// `places` and drops what is left.
pub proof fn law_shifted_right_is_a_quotient(acc: int, places: nat)
    requires
        acc >= 0,
    ensures
        shifted_right(acc, places) == acc / pow(10, places),
    decreases places,
{
    if places == 0 {
        lemma_pow0(10);
    } else {
        let less = (places - 1) as nat;
        law_shifted_right_is_a_quotient(acc / 10, less);
        lemma_pow1(10);
        lemma_pow_adds(10, 1, less);
        vstd::arithmetic::power::lemma_pow_positive(10, less);
        vstd::arithmetic::div_mod::lemma_div_denominator(acc, 10, pow(10, less));
    }
}

/// Computes [`truncated`].
pub fn truncate(whole: u32, fraction: &Vec<u8>, exponent: i32) -> (r: i32)
    ensures
        r == truncated(whole as int, fraction@, exponent as int),
        r >= 0,
{
    if exponent >= 0 {
        if whole > i32::MAX as u32 {
            proof {
                lemma_shifted_left_grows(whole as int, fraction@, exponent as nat);
            }
            return i32::MAX;
        }
        let mut acc: i32 = whole as i32;
        let mut i: i32 = 0;
        assert(fraction@.skip(0) =~= fraction@);
        while i < exponent
            invariant
                0 <= i <= exponent,
                0 <= acc,
                shifted_left(
                    acc as int,
                    fraction@.skip(
                        if i < fraction.len() {
                            i as int
                        } else {
                            fraction.len() as int
                        },
                    ),
                    (exponent - i) as nat,
                ) == shifted_left(whole as int, fraction@, exponent as nat),
            decreases exponent - i,
        {
            let ghost rest = fraction@.skip(
                if i < fraction.len() {
                    i as int
                } else {
                    fraction.len() as int
                },
            );
            let ghost after = fraction@.skip(
                if i + 1 < fraction.len() {
                    i + 1
                } else {
                    fraction.len() as int
                },
            );
            let have_digit: bool = (i as usize) < fraction.len();
            if !have_digit && acc == 0 {
                proof {
                    assert(rest =~= Seq::<u8>::empty());
                    lemma_shifted_left_zero((exponent - i) as nat);
                }
                return 0;
            }
            let d: i32 = if have_digit {
                fraction[i as usize] as i32
            } else {
                0
            };
            proof {
                if have_digit {
                    assert(rest[0] == fraction@[i as int]);
                    assert(rest.skip(1) =~= after);
                } else {
                    assert(rest =~= Seq::<u8>::empty());
                    assert(rest =~= after);
                }
            }
            if acc > (i32::MAX - d) / 10 {
                proof {
                    let next = acc * 10 + d;
                    assert(next > i32::MAX);
                    lemma_shifted_left_grows(next, after, (exponent - i - 1) as nat);
                }
                return i32::MAX;
            }
            acc = acc * 10 + d;
            i += 1;
        }
        acc
    } else {
        let mut acc: u32 = whole / 10;
        let mut i: i32 = -1;
        while i > exponent
            invariant
                exponent <= i < 0,
                acc <= u32::MAX / 10,
                shifted_right(acc as int, (i - exponent) as nat) == shifted_right(
                    whole as int,
                    (-exponent) as nat,
                ),
            decreases i - exponent,
        {
            if acc == 0 {
                proof {
                    lemma_shifted_right_zero((i - exponent) as nat);
                }
                return 0;
            }
            acc = acc / 10;
            i -= 1;
        }
        acc as i32
    }
}

} // verus!
