//! Fixed-point decimal text of double-precision quotients, computed exactly
//! with integers.
//!
//! A quotient `a / d` is first rounded to the nearest IEEE 754 double (53
//! significant bits, ties to even), as `as f64` and `/` do; the double is
//! then written with a fixed number of decimals, rounding its exact value
//! to nearest with ties to even, as `format!("{:.N}")` does.
use vstd::prelude::*;

use crate::strings::{decimal, digit, digit_char, push_decimal_wide};

verus! {

/// `2^n`.
pub open spec fn p2(n: nat) -> nat
    decreases n,
{
    if n == 0 {
        1
    } else {
        2 * p2((n - 1) as nat)
    }
}

/// `10^n`.
pub open spec fn p10(n: nat) -> nat
    decreases n,
{
    if n == 0 {
        1
    } else {
        10 * p10((n - 1) as nat)
    }
}

/// Number of binary digits of `n` (0 for 0).
pub open spec fn bitlen(n: nat) -> nat
    decreases n,
{
    if n == 0 {
        0
    } else {
        1 + bitlen(n / 2)
    }
}

/// `num / den` rounded to the nearest integer, ties to the even one.
pub open spec fn round_even(num: nat, den: nat) -> nat {
    let q = num / den;
    let r = num % den;
    if 2 * r > den || (2 * r == den && q % 2 == 1) {
        q + 1
    } else {
        q
    }
}

/// The double nearest to `a / d` (for `1 <= d <= a`), as a pair `(m, g)`
/// standing for `m / 2^g`; `m` has 53 significant bits (or is `2^53` when
/// rounding carried), `g` may be negative.
pub open spec fn f64_of(a: nat, d: nat) -> (nat, int) {
    let k = bitlen(a / d) - 1;
    if k <= 52 {
        (round_even(a * p2((52 - k) as nat), d), 52 - k)
    } else {
        (round_even(a, d * p2((k - 52) as nat)), 52 - k)
    }
}

/// `m / 2^g` multiplied by `10^p`, rounded to the nearest integer with ties
/// to even.
pub open spec fn scaled_round(m: nat, g: int, p: nat) -> nat {
    if g >= 0 {
        round_even(m * p10(p), p2(g as nat))
    } else {
        m * p10(p) * p2((-g) as nat)
    }
}

/// Decimal text of the integer `n / 10^p` with `p` (1 or 2) decimals.
pub open spec fn fixed_text(n: nat, p: nat) -> Seq<char> {
    let whole = n / p10(p);
    let frac = n % p10(p);
    if p == 1 {
        decimal(whole) + seq!['.', digit(frac)]
    } else {
        decimal(whole) + seq!['.', digit(frac / 10), digit(frac % 10)]
    }
}

proof fn lemma_p2_pos(n: nat)
    ensures
        p2(n) >= 1,
    decreases n,
{
    if n > 0 {
        lemma_p2_pos((n - 1) as nat);
    }
}

proof fn lemma_p2_add(a: nat, b: nat)
    ensures
        p2(a + b) == p2(a) * p2(b),
    decreases b,
{
    if b > 0 {
        lemma_p2_add(a, (b - 1) as nat);
        assert(p2(a + b) == 2 * p2((a + b - 1) as nat));
        assert(p2(b) == 2 * p2((b - 1) as nat));
        let x = p2(a);
        let y = p2((b - 1) as nat);
        assert(x * (2 * y) == 2 * (x * y)) by (nonlinear_arith);
        assert(p2(a + (b - 1) as nat) == x * y);
        assert(a + (b - 1) as nat == (a + b - 1) as nat);
    } else {
        assert(p2(0) == 1);
        assert(a + b == a);
    }
}

proof fn lemma_p2_mono(a: nat, b: nat)
    requires
        a <= b,
    ensures
        p2(a) <= p2(b),
    decreases b,
{
    if a < b {
        lemma_p2_mono(a, (b - 1) as nat);
        lemma_p2_pos((b - 1) as nat);
    }
}

/// `2^(bitlen n - 1) <= n < 2^bitlen n`.
proof fn lemma_bitlen(n: nat)
    ensures
        n < p2(bitlen(n)),
        n >= 1 ==> bitlen(n) >= 1 && p2((bitlen(n) - 1) as nat) <= n,
    decreases n,
{
    if n > 0 {
        lemma_bitlen(n / 2);
        if n / 2 >= 1 {
            assert(p2((bitlen(n) - 1) as nat) == 2 * p2((bitlen(n / 2) - 1) as nat));
        }
    }
}

/// `round_even` for machine integers.
fn round_even_u128(num: u128, den: u128) -> (r: u128)
    requires
        den >= 1,
        num / den < u128::MAX,
    ensures
        r as nat == round_even(num as nat, den as nat),
{
    let q = num / den;
    let r = num % den;
    if r > den - r || (r == den - r && q % 2 == 1) {
        q + 1
    } else {
        q
    }
}

/// `2^n` for `n < 127`.
pub fn pow2_u128(n: u32) -> (r: u128)
    requires
        n < 127,
    ensures
        r as nat == p2(n as nat),
{
    let mut r: u128 = 1;
    let mut i: u32 = 0;
    while i < n
        invariant
            i <= n < 127,
            r as nat == p2(i as nat),
        decreases n - i,
    {
        proof {
            lemma_p2_mono(i as nat, 126);
            lemma_p2_127();
            assert(p2(127) == 2 * p2(126));
        }
        r = r * 2;
        i += 1;
    }
    r
}

/// Powers of two for the binary units.
pub proof fn lemma_p2_units()
    ensures
        p2(10) == 0x400,
        p2(20) == 0x10_0000,
        p2(30) == 0x4000_0000,
        p2(40) == 0x100_0000_0000,
{
    reveal_with_fuel(p2, 11);
    assert(p2(10) == 0x400);
    lemma_p2_add(10, 10);
    lemma_p2_add(20, 10);
    lemma_p2_add(30, 10);
}

proof fn lemma_p2_127()
    ensures
        p2(64) == 0x1_0000_0000_0000_0000,
        p2(127) == 0x8000_0000_0000_0000_0000_0000_0000_0000,
        p2(128) == 0x1_0000_0000_0000_0000_0000_0000_0000_0000,
{
    reveal_with_fuel(p2, 17);
    assert(p2(16) == 0x1_0000);
    lemma_p2_add(16, 16);
    assert(p2(32) == 0x1_0000_0000) by (nonlinear_arith)
        requires p2(32) == p2(16) * p2(16), p2(16) == 0x1_0000;
    lemma_p2_add(32, 32);
    assert(p2(64) == 0x1_0000_0000_0000_0000) by (nonlinear_arith)
        requires p2(64) == p2(32) * p2(32), p2(32) == 0x1_0000_0000;
    lemma_p2_add(64, 64);
    assert(p2(128) == 0x1_0000_0000_0000_0000_0000_0000_0000_0000) by (nonlinear_arith)
        requires p2(128) == p2(64) * p2(64), p2(64) == 0x1_0000_0000_0000_0000;
    assert(p2(128) == 2 * p2(127));
}

/// Number of binary digits of `n`.
fn bitlen_u128(n: u128) -> (r: u32)
    ensures
        r as nat == bitlen(n as nat),
        r <= 128,
{
    let mut t = n;
    let mut len: u32 = 0;
    proof {
        lemma_bitlen_u128(n as nat);
    }
    while t > 0
        invariant
            bitlen(n as nat) == len + bitlen(t as nat),
            len + bitlen(t as nat) <= 128,
        decreases t,
    {
        t = t / 2;
        len += 1;
    }
    proof {
        lemma_bitlen_u128(n as nat);
    }
    len
}

proof fn lemma_bitlen_u128(n: nat)
    requires
        n <= u128::MAX,
    ensures
        bitlen(n) <= 128,
{
    lemma_p2_127();
    lemma_bitlen_le(n, 128);
}

/// `n < 2^k` gives `bitlen n <= k`.
proof fn lemma_bitlen_le(n: nat, k: nat)
    requires
        n < p2(k),
    ensures
        bitlen(n) <= k,
    decreases n,
{
    if n > 0 {
        if k == 0 {
            assert(p2(0) == 1);
        } else {
            assert(p2(k) == 2 * p2((k - 1) as nat));
            lemma_bitlen_le(n / 2, (k - 1) as nat);
        }
    }
}


/// The double nearest to `a / d`, as `(m, g)` standing for `m / 2^g`
/// (see [`f64_of`]).
pub fn f64_parts(a: u128, d: u128) -> (r: (u128, i32))
    requires
        1 <= d <= a,
        a <= 0x3_FFFF_FFFF_FFFF_FFFF,
        d <= 0xF_FFFF,
    ensures
        r.0 as nat == f64_of(a as nat, d as nat).0,
        r.1 as int == f64_of(a as nat, d as nat).1,
        r.0 as nat <= p2(53),
        -14 <= r.1 <= 52,
{
    let q = a / d;
    let len = bitlen_u128(q);
    proof {
        assert(q >= 1) by (nonlinear_arith)
            requires q == a / d, a >= d, d >= 1;
        lemma_bitlen(q as nat);
        lemma_p2_127();
        assert(p2(66) == 0x4_0000_0000_0000_0000) by {
            lemma_p2_add(64, 2);
            assert(p2(2) == 4) by {
                reveal_with_fuel(p2, 3);
            }
        }
        assert(q <= a);
        lemma_bitlen_le(q as nat, 66);
        assert(a < d * (q + 1)) by (nonlinear_arith)
            requires q == a / d, d >= 1;
        assert(d * (q + 1) <= d * p2(len as nat)) by (nonlinear_arith)
            requires q + 1 <= p2(len as nat), d >= 1;
    }
    let k: u32 = len - 1;
    if k <= 52 {
        let sh: u32 = 52 - k;
        let f = pow2_u128(sh);
        proof {
            lemma_p2_add(len as nat, sh as nat);
            assert(len + sh == 53);
            lemma_p2_pos(sh as nat);
            assert(a * f < d * p2(53)) by (nonlinear_arith)
                requires a < d * p2(len as nat), f > 0, p2(53) == p2(len as nat) * f;
            lemma_p2_mono(53, 127);
            assert(d * p2(53) <= 0xF_FFFF * p2(53)) by (nonlinear_arith)
                requires d <= 0xF_FFFF;
            lemma_p2_add(53, 20);
            lemma_p2_mono(73, 127);
            assert(0xF_FFFF < p2(20)) by {
                reveal_with_fuel(p2, 21);
            }
            assert(0xF_FFFF * p2(53) < p2(20) * p2(53)) by (nonlinear_arith)
                requires 0xF_FFFF < p2(20), p2(53) > 0;
        }
        let num = a * f;
        proof {
            assert(num / d < p2(53)) by (nonlinear_arith)
                requires num < d * p2(53), d >= 1;
        }
        let m = round_even_u128(num, d);
        (m, sh as i32)
    } else {
        let e: u32 = k - 52;
        let f = pow2_u128(e);
        proof {
            lemma_p2_pos(e as nat);
            lemma_p2_add(e as nat, 53);
            assert(e + 53 == len);
            lemma_p2_mono(e as nat, 14);
            assert(p2(14) == 0x4000) by {
                reveal_with_fuel(p2, 15);
            }
            assert(d * f <= 0xF_FFFF * 0x4000) by (nonlinear_arith)
                requires d <= 0xF_FFFF, f <= 0x4000;
            assert(a < (d * f) * p2(53)) by (nonlinear_arith)
                requires a < d * p2(len as nat), p2(len as nat) == f * p2(53);
            assert(d * f >= 1) by (nonlinear_arith)
                requires d >= 1, f >= 1;
            assert((a as int) / (d * f) < p2(53)) by (nonlinear_arith)
                requires a < (d * f) * p2(53), d * f >= 1;
        }
        let den = d * f;
        let m = round_even_u128(a, den);
        (m, 52 - (k as i32))
    }
}


/// Appends `fixed_text(scaled_round(m, g, p), p)`: the value `m / 2^g`
/// written with `p` (1 or 2) decimals.
pub fn push_fixed(out: &mut Vec<char>, m: u128, g: i32, p: u32)
    requires
        m as nat <= p2(53),
        -14 <= g <= 100,
        p == 1 || p == 2,
    ensures
        final(out)@ == old(out)@ + fixed_text(scaled_round(m as nat, g as int, p as nat), p as nat),
{
    let ten: u128 = if p == 1 {
        10
    } else {
        100
    };
    assert(ten == p10(p as nat)) by {
        reveal_with_fuel(p10, 3);
    }
    proof {
        lemma_p2_127();
        lemma_p2_mono(53, 64);
    }
    let n: u128 = if g >= 0 {
        let den = pow2_u128(g as u32);
        proof {
            lemma_p2_pos(g as nat);
        }
        round_even_u128(m * ten, den)
    } else {
        let f = pow2_u128((-g) as u32);
        proof {
            lemma_p2_mono((-g) as nat, 14);
            assert(p2(14) == 0x4000) by {
                reveal_with_fuel(p2, 15);
            }
            assert(m * ten * f <= 0x1_0000_0000_0000_0000 * 100 * 0x4000) by (nonlinear_arith)
                requires m <= 0x1_0000_0000_0000_0000, ten <= 100, f <= 0x4000;
        }
        m * ten * f
    };
    assert(n == scaled_round(m as nat, g as int, p as nat));
    let whole = n / ten;
    let frac = n % ten;
    push_decimal_wide(out, whole);
    out.push('.');
    if p == 1 {
        out.push(digit_char(frac as u64));
    } else {
        out.push(digit_char((frac / 10) as u64));
        out.push(digit_char((frac % 10) as u64));
    }
    assert(out@ =~= old(out)@ + fixed_text(n as nat, p as nat));
}


/// The integer value `m * 2^-g` of a double `(m, g)` that holds an integer.
pub open spec fn int_value(m: nat, g: int) -> nat {
    if g >= 0 {
        m / p2(g as nat)
    } else {
        m * p2((-g) as nat)
    }
}

/// Converting a 64-bit integer to a double keeps it when it has at most 53
/// significant bits, and otherwise gives a value of at least `2^52`, with
/// an exponent of at least -11.
pub proof fn lemma_f64_of_int(a: nat)
    requires
        1 <= a < p2(64),
    ensures
        f64_of(a, 1).1 >= 0 ==> f64_of(a, 1).0 == a * p2(f64_of(a, 1).1 as nat) && int_value(f64_of(a, 1).0, f64_of(a, 1).1) == a,
        f64_of(a, 1).1 < 0 ==> p2(52) <= f64_of(a, 1).0 && f64_of(a, 1).1 >= -11,
{
    let k = bitlen(a) - 1;
    lemma_bitlen(a);
    lemma_bitlen_le(a, 64);
    assert(a / 1 == a);
    if k <= 52 {
        let sh = (52 - k) as nat;
        let x = a * p2(sh);
        assert(x / 1 == x && x % 1 == 0);
        lemma_p2_pos(sh);
        assert(x / p2(sh) == a) by (nonlinear_arith)
            requires x == a * p2(sh), p2(sh) > 0;
    } else {
        let e = (k - 52) as nat;
        lemma_p2_add(e, 52);
        assert(e + 52 == k);
        lemma_p2_pos(e);
        assert(a / p2(e) >= p2(52)) by (nonlinear_arith)
            requires a >= p2(k as nat), p2(k as nat) == p2(e) * p2(52), p2(e) > 0;
    }
}


/// Powers of two used by callers.
pub proof fn lemma_p2_consts()
    ensures
        p2(11) == 2048,
        p2(52) == 0x10_0000_0000_0000,
        p2(53) == 0x20_0000_0000_0000,
        p2(64) == 0x1_0000_0000_0000_0000,
{
    reveal_with_fuel(p2, 12);
    lemma_p2_127();
    lemma_p2_add(11, 11);
    lemma_p2_add(22, 11);
    lemma_p2_add(33, 11);
    lemma_p2_add(44, 8);
    assert(p2(8) == 256);
    lemma_p2_add(52, 1);
    assert(p2(1) == 2);
}

/// `2^a <= 2^b` for `a <= b`.
pub proof fn lemma_p2_mono_pub(a: nat, b: nat)
    requires
        a <= b,
    ensures
        p2(a) <= p2(b),
{
    lemma_p2_mono(a, b);
}

/// `2^n >= 1`.
pub proof fn lemma_p2_pos_pub(n: nat)
    ensures
        p2(n) >= 1,
{
    lemma_p2_pos(n);
}

} // verus!
