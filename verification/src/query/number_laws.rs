//! How doubles stand to each other and to the integers.
use vstd::prelude::*;

use super::number::{
    doubled, exponent, halved, mantissa, nan, negative, num_eq, num_lt, whole_of, zero,
};

verus! {

/// Numbers are in order: none is less than itself, less than less is less, and
/// of two that are no NaN one is less or they are equal. NaN is neither less
/// nor equal.
pub proof fn numbers_are_in_order(a: u64, b: u64, c: u64)
    ensures
        !num_lt(a, a),
        num_lt(a, b) && num_lt(b, c) ==> num_lt(a, c),
        num_lt(a, b) ==> !num_lt(b, a) && !num_eq(a, b),
        !nan(a) && !nan(b) ==> num_lt(a, b) || num_lt(b, a) || num_eq(a, b),
        nan(a) || nan(b) ==> !num_lt(a, b) && !num_eq(a, b),
        zero(a) && zero(b) ==> num_eq(a, b),
{
}

/// Two to the `k`.
pub open spec fn two_to(k: nat) -> int {
    doubled(1, k)
}

proof fn two_to_grows(a: nat, b: nat)
    requires
        a <= b,
    ensures
        0 < two_to(a) <= two_to(b),
    decreases b,
{
    if a < b {
        two_to_grows(a, (b - 1) as nat);
    } else if a > 0 {
        two_to_grows((a - 1) as nat, (a - 1) as nat);
    }
}

proof fn two_to_sum(a: nat, b: nat)
    ensures
        two_to(a + b) == two_to(a) * two_to(b),
    decreases b,
{
    if b > 0 {
        let c = (b - 1) as nat;
        two_to_sum(a, c);
        let x = two_to(a);
        let y = two_to(c);
        assert(two_to(a + b) == 2 * two_to((a + b - 1) as nat));
        assert((a + b - 1) as nat == a + c);
        assert(2 * (x * y) == x * (2 * y)) by (nonlinear_arith);
    }
}

proof fn doubled_by(m: int, k: nat)
    ensures
        doubled(m, k) == m * two_to(k),
    decreases k,
{
    if k > 0 {
        let j = (k - 1) as nat;
        doubled_by(m, j);
        let y = two_to(j);
        assert(2 * (m * y) == m * (2 * y)) by (nonlinear_arith);
    }
}

proof fn halved_by(m: int, k: nat)
    ensures
        halved(m, k) matches Some(s) ==> s * two_to(k) == m,
    decreases k,
{
    if k > 0 && m % 2 == 0 {
        let j = (k - 1) as nat;
        halved_by(m / 2, j);
        if let Some(s) = halved(m, k) {
            let y = two_to(j);
            assert(s * y == m / 2);
            assert(s * (2 * y) == 2 * (s * y)) by (nonlinear_arith);
        }
    }
}

proof fn two_to_52()
    ensures
        two_to(52) == 0x10_0000_0000_0000,
{
    assert(two_to(13) == 8192) by {
        reveal_with_fuel(doubled, 14);
    }
    two_to_sum(13, 13);
    two_to_sum(26, 26);
    let x = two_to(26);
    assert(x == 67108864);
    assert(x * x == 0x10_0000_0000_0000) by (nonlinear_arith)
        requires
            x == 67108864,
    ;
}

/// The significand with its leading bit.
spec fn significand(n: u64) -> int {
    mantissa(n) + 0x10_0000_0000_0000
}

/// The size of the integer that a double is.
spec fn size_of(n: u64) -> int {
    let i = whole_of(n)->0;
    if i < 0 {
        -i
    } else {
        i
    }
}

/// A whole double lies between the powers of two that its exponent tells.
#[verifier::spinoff_prover]
proof fn size_in_range(n: u64)
    requires
        whole_of(n) is Some,
        !zero(n),
    ensures
        1023 <= exponent(n) <= 1086,
        two_to((exponent(n) - 1023) as nat) <= size_of(n) < two_to((exponent(n) - 1022) as nat),
        negative(n) <==> whole_of(n)->0 < 0,
        exponent(n) < 1075 ==> size_of(n) * two_to((1075 - exponent(n)) as nat) == significand(n),
        exponent(n) >= 1075 ==> size_of(n) == significand(n) * two_to((exponent(n) - 1075) as nat),
{
    let e = exponent(n);
    let m = significand(n);
    two_to_52();
    assert(two_to(53) == 2 * two_to(52));
    if n == 0xC3E0_0000_0000_0000 {
        assert(e == 1086) by (nonlinear_arith)
            requires
                n == 0xC3E0_0000_0000_0000u64,
                e == (n / 0x10_0000_0000_0000) as int % 2048,
        ;
        assert(mantissa(n) == 0);
        two_to_sum(52, 11);
        assert(two_to(11) == 2048) by {
            reveal_with_fuel(doubled, 12);
        }
        assert(two_to(64) == 2 * two_to(63));
    } else if e < 1075 {
        let k = (1075 - e) as nat;
        let g = (e - 1023) as nat;
        halved_by(m, k);
        let s = halved(m, k)->0;
        two_to_sum(k, g);
        two_to_grows(0, k);
        let p = two_to(k);
        let q = two_to(g);
        assert(s * p == m);
        assert(p * q == two_to(52));
        assert(q <= s < 2 * q) by (nonlinear_arith)
            requires
                s * p == m,
                p > 0,
                p * q <= m,
                m < 2 * (p * q),
        ;
        assert(two_to((e - 1022) as nat) == 2 * q);
        two_to_grows(0, g);
    } else {
        let k = (e - 1075) as nat;
        doubled_by(m, k);
        two_to_sum(52, k);
        two_to_sum(53, k);
        two_to_grows(0, k);
        let p = two_to(k);
        assert(two_to(52) * p <= m * p < two_to(53) * p) by (nonlinear_arith)
            requires
                two_to(52) <= m < two_to(53),
                p > 0,
        ;
        assert(52 + k == (e - 1023) as nat);
        assert(53 + k == (e - 1022) as nat);
        two_to_grows(0, 52 + k);
    }
}

/// A whole double is negative exactly if its sign says so.
pub proof fn sign_of_whole(n: u64)
    requires
        whole_of(n) is Some,
        !zero(n),
    ensures
        negative(n) <==> whole_of(n)->0 < 0,
{
    size_in_range(n);
}

/// Of two whole doubles of one sign the one with the smaller bits is the
/// smaller integer.
#[verifier::spinoff_prover]
proof fn sizes_follow_bits(a: u64, b: u64)
    requires
        whole_of(a) is Some,
        whole_of(b) is Some,
        !zero(a),
        !zero(b),
        negative(a) == negative(b),
        a < b,
    ensures
        size_of(a) < size_of(b),
{
    size_in_range(a);
    size_in_range(b);
    let e = exponent(a);
    let f = exponent(b);
    parts_of_bits(a);
    parts_of_bits(b);
    if e < f {
        two_to_grows((e - 1022) as nat, (f - 1023) as nat);
    } else {
        assert(e == f);
        assert(significand(a) < significand(b));
        let s = size_of(a);
        let t = size_of(b);
        if e < 1075 {
            let p = two_to((1075 - e) as nat);
            two_to_grows(0, (1075 - e) as nat);
            assert(s < t) by (nonlinear_arith)
                requires
                    s * p < t * p,
                    p > 0,
            ;
        } else {
            let p = two_to((e - 1075) as nat);
            two_to_grows(0, (e - 1075) as nat);
            let m = significand(a);
            let l = significand(b);
            assert(m * p < l * p) by (nonlinear_arith)
                requires
                    m < l,
                    p > 0,
            ;
        }
    }
}

/// The bits of a double are its sign, its exponent and its mantissa.
proof fn parts_of_bits(n: u64)
    ensures
        n == (if negative(n) {
            0x8000_0000_0000_0000int
        } else {
            0
        }) + exponent(n) * 0x10_0000_0000_0000 + mantissa(n),
        0 <= mantissa(n) < 0x10_0000_0000_0000,
        0 <= exponent(n) < 2048,
{
    let h = (n / 0x10_0000_0000_0000) as int;
    assert(n as int == h * 0x10_0000_0000_0000 + mantissa(n));
    assert(0 <= h < 4096);
    if h >= 2048 {
        assert(exponent(n) == h - 2048);
    }
}

/// Doubles that are integers are in the order of those integers, and equal
/// exactly if they are the same integer.
#[verifier::spinoff_prover]
pub proof fn whole_numbers_are_in_order(a: u64, b: u64)
    requires
        whole_of(a) is Some,
        whole_of(b) is Some,
    ensures
        num_lt(a, b) <==> whole_of(a)->0 < whole_of(b)->0,
        num_eq(a, b) <==> whole_of(a) == whole_of(b),
{
    parts_of_bits(a);
    parts_of_bits(b);
    if !zero(a) {
        size_in_range(a);
        two_to_grows(0, (exponent(a) - 1023) as nat);
    }
    if !zero(b) {
        size_in_range(b);
        two_to_grows(0, (exponent(b) - 1023) as nat);
    }
    assert(zero(a) ==> !nan(a) && whole_of(a) == Some(0int));
    assert(zero(b) ==> !nan(b) && whole_of(b) == Some(0int));
    if !zero(a) && !zero(b) && negative(a) == negative(b) {
        if a < b {
            sizes_follow_bits(a, b);
        } else if b < a {
            sizes_follow_bits(b, a);
        }
    }
}

/// A double that is an integer is one that a 64-bit integer holds.
#[verifier::spinoff_prover]
pub proof fn whole_numbers_fit(n: u64)
    ensures
        whole_of(n) matches Some(i) ==> i64::MIN <= i <= i64::MAX,
{
    if whole_of(n) is Some && !zero(n) && n != 0xC3E0_0000_0000_0000 {
        size_in_range(n);
        two_to_52();
        two_to_sum(52, 11);
        assert(two_to(11) == 2048) by {
            reveal_with_fuel(doubled, 12);
        }
        assert(exponent(n) <= 1085);
        two_to_grows((exponent(n) - 1022) as nat, 63);
    }
}

} // verus!
