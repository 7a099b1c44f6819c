//! Comparisons of IEEE-754 binary64 numbers given by their bit patterns, and of
//! such numbers with 64-bit integers converted the way `i64 as f64` converts
//! them (round to nearest, ties to even).
//!
//! A binary64 pattern holds a sign bit, an 11-bit exponent field and a 52-bit
//! fraction. Exponent 2047 with a zero fraction is an infinity, with a
//! non-zero fraction a NaN; exponent 0 holds zero and the subnormals
//! (fraction times 2^-1074); any other exponent `e` holds
//! (2^52 + fraction) times 2^(e - 1075).
use vstd::prelude::*;
use vstd::arithmetic::power2::{pow2, lemma_pow2_unfold, lemma_pow2_strictly_increases, lemma2_to64, lemma2_to64_rest};
use vstd::arithmetic::div_mod::{lemma_div_denominator, lemma_fundamental_div_mod};
use vstd::arithmetic::mul::lemma_mul_inequality;

use crate::text::{Order, int_order};

verus! {

/// The sign bit is set.
pub open spec fn f64_negative(b: u64) -> bool {
    b >= 0x8000_0000_0000_0000u64
}

/// The pattern without its sign bit.
pub open spec fn f64_magnitude(b: u64) -> int {
    (b % 0x8000_0000_0000_0000u64) as int
}

/// The exponent field.
pub open spec fn f64_exponent(b: u64) -> int {
    f64_magnitude(b) / 0x10_0000_0000_0000
}

/// The fraction field.
pub open spec fn f64_fraction(b: u64) -> int {
    (b % 0x10_0000_0000_0000u64) as int
}

pub open spec fn f64_is_nan(b: u64) -> bool {
    f64_exponent(b) == 2047 && f64_fraction(b) != 0
}

pub open spec fn f64_is_infinite(b: u64) -> bool {
    f64_exponent(b) == 2047 && f64_fraction(b) == 0
}

/// An integer that orders the non-NaN numbers as IEEE-754 orders them:
/// the magnitude, negated when the sign bit is set (both zeros give 0).
pub open spec fn f64_key(b: u64) -> int {
    if f64_negative(b) {
        -f64_magnitude(b)
    } else {
        f64_magnitude(b)
    }
}

/// How two binary64 numbers compare; `None` when either is a NaN.
pub open spec fn f64_order(a: u64, b: u64) -> Option<Order> {
    if f64_is_nan(a) || f64_is_nan(b) {
        None
    } else {
        Some(int_order(f64_key(a), f64_key(b)))
    }
}

/// The integer significand of a finite number, with its sign.
pub open spec fn f64_signed_significand(b: u64) -> int {
    let sig = if f64_exponent(b) == 0 {
        f64_fraction(b)
    } else {
        f64_fraction(b) + 0x10_0000_0000_0000
    };
    if f64_negative(b) {
        -sig
    } else {
        sig
    }
}

/// The power of two that scales the significand of a finite number.
pub open spec fn f64_scale(b: u64) -> int {
    if f64_exponent(b) == 0 {
        -1074
    } else {
        f64_exponent(b) - 1075
    }
}

/// How the integer `x` compares with the binary64 number `b`; `None` when `b`
/// is a NaN.
pub open spec fn int_f64_order(x: int, b: u64) -> Option<Order> {
    if f64_is_nan(b) {
        None
    } else if f64_is_infinite(b) {
        Some(
            if f64_negative(b) {
                Order::Greater
            } else {
                Order::Less
            },
        )
    } else if f64_scale(b) >= 0 {
        Some(int_order(x, f64_signed_significand(b) * pow2(f64_scale(b) as nat)))
    } else {
        Some(int_order(x * pow2((-f64_scale(b)) as nat), f64_signed_significand(b)))
    }
}

/// How many low bits a magnitude loses when held in 53 significant bits.
pub open spec fn shift53(m: nat) -> nat
    decreases m,
{
    if m < 0x20_0000_0000_0000 {
        0
    } else {
        1 + shift53(m / 2)
    }
}

/// The nearest integer to `m` with at most 53 significant bits, ties going to
/// the one whose last kept bit is zero.
pub open spec fn round53(m: nat) -> nat {
    let s = shift53(m);
    if s == 0 {
        m
    } else {
        let p = pow2(s);
        let q = m / p;
        let r = m % p;
        if 2 * r > p || (2 * r == p && q % 2 == 1) {
            ((q + 1) * p) as nat
        } else {
            (q * p) as nat
        }
    }
}

/// The value `i as f64` takes for a 64-bit integer `i`.
pub open spec fn i64_as_f64(i: int) -> int {
    if i < 0 {
        -round53((-i) as nat)
    } else {
        round53(i as nat) as int
    }
}

/// How `i as f64` compares with the binary64 number `b`.
pub open spec fn i64_f64_order(i: i64, b: u64) -> Option<Order> {
    int_f64_order(i64_as_f64(i as int), b)
}

/// The reverse of an order.
pub open spec fn flip(o: Option<Order>) -> Option<Order> {
    match o {
        Some(Order::Less) => Some(Order::Greater),
        Some(Order::Greater) => Some(Order::Less),
        _ => o,
    }
}

/// How binary64 numbers compare, read off their bit patterns: a NaN
/// (exponent field all ones, fraction non-zero) is unordered; any other
/// pattern equals itself; the two zeros are equal; among patterns with a
/// clear sign bit a larger pattern is a larger number, among patterns with
/// the sign bit set a larger pattern is a smaller number, and a number with a
/// clear sign bit is above one with the sign bit set unless both are zeros.
pub proof fn lemma_f64_order_by_bits(a: u64, b: u64)
    ensures
        (a % 0x8000_0000_0000_0000 >= 0x7ff0_0000_0000_0001) ==> f64_order(a, b) is None,
        (b % 0x8000_0000_0000_0000 >= 0x7ff0_0000_0000_0001) ==> f64_order(a, b) is None,
        !f64_is_nan(a) ==> f64_order(a, a) == Some(Order::Equal),
        f64_order(0, 0x8000_0000_0000_0000) == Some(Order::Equal),
        !f64_is_nan(a) && !f64_is_nan(b) && a < b && b < 0x8000_0000_0000_0000 ==> f64_order(a, b)
            == Some(Order::Less),
        !f64_is_nan(a) && !f64_is_nan(b) && 0x8000_0000_0000_0000 <= a && a < b ==> f64_order(a, b)
            == Some(Order::Greater),
        !f64_is_nan(a) && !f64_is_nan(b) && a < 0x8000_0000_0000_0000 && 0x8000_0000_0000_0000 <= b
            && !(a == 0 && b == 0x8000_0000_0000_0000) ==> f64_order(a, b) == Some(Order::Greater),
        f64_is_nan(a) <==> (a % 0x8000_0000_0000_0000 >= 0x7ff0_0000_0000_0001),
{
}

/// Integers of magnitude at most 2^53 convert to `f64` exactly.
pub proof fn lemma_small_ints_convert_exactly(i: int)
    requires
        -0x20_0000_0000_0000 <= i <= 0x20_0000_0000_0000,
    ensures
        i64_as_f64(i) == i,
{
    let m: nat = if i < 0 { (-i) as nat } else { i as nat };
    if m == 0x20_0000_0000_0000 {
        assert(shift53(m / 2) == 0);
        assert(shift53(m) == 1);
        lemma2_to64();
        assert(pow2(1) == 2);
    } else {
        assert(shift53(m) == 0);
    }
}

fn order_of(a: i128, b: i128) -> (r: Order)
    ensures
        r == int_order(a as int, b as int),
{
    if a < b {
        Order::Less
    } else if a == b {
        Order::Equal
    } else {
        Order::Greater
    }
}

fn key_of(b: u64) -> (k: i128)
    ensures
        k == f64_key(b),
{
    let mag: u64 = b % 0x8000_0000_0000_0000u64;
    if b >= 0x8000_0000_0000_0000u64 {
        -(mag as i128)
    } else {
        mag as i128
    }
}

/// Compares two binary64 numbers given by their bit patterns.
pub fn compare_f64_bits(a: u64, b: u64) -> (r: Option<Order>)
    ensures
        r == f64_order(a, b),
{
    let ea: u64 = (a % 0x8000_0000_0000_0000u64) / 0x10_0000_0000_0000u64;
    let fa: u64 = a % 0x10_0000_0000_0000u64;
    let eb: u64 = (b % 0x8000_0000_0000_0000u64) / 0x10_0000_0000_0000u64;
    let fb: u64 = b % 0x10_0000_0000_0000u64;
    if (ea == 2047 && fa != 0) || (eb == 2047 && fb != 0) {
        None
    } else {
        Some(order_of(key_of(a), key_of(b)))
    }
}

fn pow2_of(n: u64) -> (r: u128)
    requires
        n <= 64,
    ensures
        r == pow2(n as nat),
{
    let mut r: u128 = 1;
    let mut i: u64 = 0;
    proof {
        lemma2_to64();
    }
    while i < n
        invariant
            i <= n <= 64,
            r == pow2(i as nat),
        decreases n - i,
    {
        proof {
            lemma_pow2_unfold((i + 1) as nat);
            lemma_pow2_strictly_increases(i as nat, 64);
            lemma2_to64();
        }
        r = r * 2;
        i = i + 1;
    }
    r
}

/// The magnitude `m` rounded to 53 significant bits.
fn round_magnitude(m: u64) -> (r: u128)
    requires
        m <= 0x8000_0000_0000_0000u64,
    ensures
        r == round53(m as nat),
        r <= 2 * (m as int),
{
    let mm: u128 = m as u128;
    let mut q: u128 = mm;
    let mut p: u128 = 1;
    let ghost mut s: nat = 0;
    proof {
        lemma2_to64();
    }
    while q >= 0x20_0000_0000_0000u128
        invariant
            mm == m,
            m <= 0x8000_0000_0000_0000u64,
            p == pow2(s),
            p >= 1,
            p == 1 || p <= mm,
            q == mm / p,
            shift53(m as nat) == s + shift53(q as nat),
        decreases q,
    {
        proof {
            lemma_div_denominator(mm as int, p as int, 2);
            lemma_pow2_unfold(s + 1);
            lemma_fundamental_div_mod(mm as int, p as int);
            lemma_mul_inequality(2, q as int, p as int);
            assert(p * q <= mm) by (nonlinear_arith)
                requires
                    mm == p * q + mm % p,
                    mm % p >= 0,
            ;
            assert(q * p == p * q) by (nonlinear_arith);
        }
        q = q / 2;
        p = p * 2;
        proof {
            s = s + 1;
        }
    }
    proof {
        lemma_fundamental_div_mod(mm as int, p as int);
    }
    if p == 1 {
        assert(q == mm);
        proof {
            if s > 0 {
                lemma_pow2_strictly_increases(0nat, s);
            }
        }
        assert(shift53(m as nat) == s);
        return mm;
    }
    let rem: u128 = mm % p;
    assert(s > 0);
    assert(p * q <= mm) by (nonlinear_arith)
        requires
            mm == p * q + mm % p,
            mm % p >= 0,
    ;
    assert((q + 1) * p == q * p + p) by (nonlinear_arith);
    assert(q * p == p * q) by (nonlinear_arith);
    if 2 * rem > p || (2 * rem == p && q % 2 == 1) {
        (q + 1) * p
    } else {
        q * p
    }
}

/// The value `i as f64` takes, as an integer.
pub fn i64_as_f64_value(i: i64) -> (x: i128)
    ensures
        x == i64_as_f64(i as int),
        -0x1_0000_0000_0000_0000 <= x <= 0x1_0000_0000_0000_0000,
{
    if i < 0 {
        let m: u64 = if i == i64::MIN {
            0x8000_0000_0000_0000u64
        } else {
            (-i) as u64
        };
        let r = round_magnitude(m);
        -(r as i128)
    } else {
        let r = round_magnitude(i as u64);
        r as i128
    }
}

/// Compares an integer with a binary64 number given by its bit pattern.
pub fn compare_int_f64_bits(x: i128, b: u64) -> (r: Option<Order>)
    requires
        -0x1_0000_0000_0000_0000 <= x <= 0x1_0000_0000_0000_0000,
    ensures
        r == int_f64_order(x as int, b),
{
    let neg: bool = b >= 0x8000_0000_0000_0000u64;
    let e: u64 = (b % 0x8000_0000_0000_0000u64) / 0x10_0000_0000_0000u64;
    let f: u64 = b % 0x10_0000_0000_0000u64;
    if e == 2047 {
        if f != 0 {
            return None;
        } else if neg {
            return Some(Order::Greater);
        } else {
            return Some(Order::Less);
        }
    }
    let sig: i128 = if e == 0 {
        f as i128
    } else {
        f as i128 + 0x10_0000_0000_0000i128
    };
    let ssig: i128 = if neg {
        -sig
    } else {
        sig
    };
    assert(ssig == f64_signed_significand(b));
    assert(0 <= sig < 0x20_0000_0000_0000);
    proof {
        lemma2_to64();
        lemma2_to64_rest();
    }
    if e >= 1075 {
        let k: u64 = e - 1075;
        assert(f64_scale(b) == k);
        if k >= 13 {
            proof {
                if k > 13 {
                    lemma_pow2_strictly_increases(13, k as nat);
                }
                lemma_mul_inequality(0x10_0000_0000_0000, sig as int, pow2(k as nat) as int);
                lemma_mul_inequality(0x2000, pow2(k as nat) as int, 0x10_0000_0000_0000);
                assert(sig * pow2(k as nat) >= 0x2_0000_0000_0000_0000) by (nonlinear_arith)
                    requires
                        0x10_0000_0000_0000 * pow2(k as nat) <= sig * pow2(k as nat),
                        0x2000 * 0x10_0000_0000_0000 <= pow2(k as nat) * 0x10_0000_0000_0000,
                ;
                assert(neg ==> ssig * pow2(k as nat) == -(sig * pow2(k as nat))) by (nonlinear_arith)
                    requires
                        neg ==> ssig == -sig,
                ;
                assert(!neg ==> ssig * pow2(k as nat) == sig * pow2(k as nat)) by (nonlinear_arith)
                    requires
                        !neg ==> ssig == sig,
                ;
            }
            if neg {
                return Some(Order::Greater);
            } else {
                return Some(Order::Less);
            }
        }
        let p: u128 = pow2_of(k);
        proof {
            if k < 13 {
                lemma_pow2_strictly_increases(k as nat, 13);
            }
            assert(-0x20_0000_0000_0000 * 0x2000 <= ssig * p <= 0x20_0000_0000_0000 * 0x2000) by (nonlinear_arith)
                requires
                    -0x20_0000_0000_0000 < ssig < 0x20_0000_0000_0000,
                    1 <= p <= 0x2000,
            ;
        }
        let v: i128 = ssig * (p as i128);
        Some(order_of(x, v))
    } else {
        let j: u64 = if e == 0 {
            1074
        } else {
            1075 - e
        };
        assert(f64_scale(b) == -(j as int));
        if j >= 54 {
            proof {
                if j > 54 {
                    lemma_pow2_strictly_increases(54, j as nat);
                }
                if x >= 1 {
                    lemma_mul_inequality(1, x as int, pow2(j as nat) as int);
                } else if x <= -1 {
                    lemma_mul_inequality(1, -x as int, pow2(j as nat) as int);
                    assert((-x) * pow2(j as nat) == -(x * pow2(j as nat))) by (nonlinear_arith);
                } else {
                    assert(x * pow2(j as nat) == 0) by (nonlinear_arith)
                        requires
                            x == 0,
                    ;
                }
            }
            if x >= 1 {
                return Some(Order::Greater);
            } else if x <= -1 {
                return Some(Order::Less);
            } else {
                return Some(order_of(0, ssig));
            }
        }
        let p: u128 = pow2_of(j);
        proof {
            if j < 54 {
                lemma_pow2_strictly_increases(j as nat, 54);
            }
            assert(-0x1_0000_0000_0000_0000 * 0x40_0000_0000_0000 <= x * p <= 0x1_0000_0000_0000_0000 * 0x40_0000_0000_0000) by (nonlinear_arith)
                requires
                    -0x1_0000_0000_0000_0000 <= x <= 0x1_0000_0000_0000_0000,
                    1 <= p <= 0x40_0000_0000_0000,
            ;
        }
        let w: i128 = x * (p as i128);
        Some(order_of(w, ssig))
    }
}

} // verus!
