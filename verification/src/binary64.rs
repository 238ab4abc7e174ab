//! Exact integer model of the binary64 (IEEE 754 double) rounding that the
//! size display and the resolution planner rely on.
//!
//! A positive double is modelled as a pair `(m, e)` standing for `m / 2^e`.

use vstd::arithmetic::power2::*;
use vstd::prelude::*;

verus! {

/// 2^53: the first integer that a double cannot hold next to its successor.
pub open spec fn two_53() -> nat {
    0x20_0000_0000_0000
}

/// `n / d` rounded to the nearest integer, ties to the even neighbour.
pub open spec fn rne(n: nat, d: nat) -> nat
    recommends
        d > 0,
{
    let q = n / d;
    let r = n % d;
    if 2 * r > d || (2 * r == d && q % 2 == 1) {
        q + 1
    } else {
        q
    }
}

/// How many low bits of `n` a double cannot keep.
pub open spec fn excess_bits(n: nat) -> nat
    decreases n,
{
    if n < two_53() {
        0
    } else {
        1 + excess_bits(n / 2)
    }
}

/// The double nearest to the integer `n` (ties to even): what `n as f64` gives.
pub open spec fn round53(n: nat) -> nat {
    rne(n, pow2(excess_bits(n))) * pow2(excess_bits(n))
}

/// The smallest exponent `e >= from` (at most 128) at which `a * 2^e` reaches
/// `2^52 * b`: the scale that puts `a / b` in the 53-bit mantissa range.
pub open spec fn quotient_exp(a: nat, b: nat, from: nat) -> nat
    decreases 128 - from,
{
    if from >= 128 || a * pow2(from) >= pow2(52) * b {
        from
    } else {
        quotient_exp(a, b, from + 1)
    }
}

/// The double nearest to `a / b`, as `(m, e)` standing for `m / 2^e`:
/// what `a as f64 / b as f64` gives for integers below 2^53.
pub open spec fn f64_quotient(a: nat, b: nat) -> (nat, nat) {
    let e = quotient_exp(a, b, 0);
    (rne(a * pow2(e), b), e)
}

/// `x <= y` for doubles given as `(m, e)` pairs.
pub open spec fn f64_le(x: (nat, nat), y: (nat, nat)) -> bool {
    x.0 * pow2(y.1) <= y.0 * pow2(x.1)
}

/// `x.min(y)`, keeping `x` when the two are equal.
pub open spec fn f64_min(x: (nat, nat), y: (nat, nat)) -> (nat, nat) {
    if f64_le(x, y) {
        x
    } else {
        y
    }
}

/// `(s as f64 * x).floor()` for a double `x = (m, e)`.
pub open spec fn scaled_floor(s: nat, x: (nat, nat)) -> nat {
    round53(s * x.0) / pow2(x.1)
}

/// Round-half-even division.
pub fn rne_u128(n: u128, d: u128) -> (r: u128)
    requires
        d > 0,
    ensures
        r == rne(n as nat, d as nat),
{
    let q = n / d;
    let rem = n % d;
    if rem > d - rem || (rem == d - rem && q % 2 == 1) {
        proof {
            vstd::arithmetic::div_mod::lemma_fundamental_div_mod(n as int, d as int);
        }
        assert(q < n) by (nonlinear_arith)
            requires q == n / d, rem == n % d, rem > 0, d > 0, n == d * q + rem;
        q + 1
    } else {
        q
    }
}

proof fn lemma_excess_step(n: nat, d: nat, k: nat)
    requires
        d == pow2(k),
        n / d >= two_53(),
        excess_bits(n) == k + excess_bits(n / d),
    ensures
        excess_bits(n) == (k + 1) + excess_bits(n / (2 * d)),
        2 * d == pow2(k + 1),
{
    lemma_pow2_unfold(k + 1);
    lemma_pow2_pos(k);
    vstd::arithmetic::div_mod::lemma_div_denominator(n as int, d as int, 2);
}

/// `n as f64` split as `q * d`, for `n` below 2^126: `q` is `n` rounded to
/// its leading 53 bits and `d = 2^k` the weight of the lowest bit a double keeps.
pub fn round53_parts(n: u128) -> (r: (u128, u32, u128))
    requires
        n < 0x4000_0000_0000_0000_0000_0000_0000_0000,
    ensures
        r.1 as nat == excess_bits(n as nat),
        r.2 == pow2(r.1 as nat),
        r.0 == rne(n as nat, r.2 as nat),
        r.0 <= two_53(),
        r.0 * r.2 == round53(n as nat),
        r.0 * r.2 <= 2 * n + 1,
{
    let mut d: u128 = 1;
    let mut k: u32 = 0;
    proof {
        lemma2_to64();
        lemma2_to64_rest();
        lemma_pow2_adds(64, 62);
    }
    while n / d >= 0x20_0000_0000_0000
        invariant
            d == pow2(k as nat),
            d >= 1,
            d <= n + 1,
            k <= 126,
            pow2(126) == 0x4000_0000_0000_0000_0000_0000_0000_0000,
            n < 0x4000_0000_0000_0000_0000_0000_0000_0000,
            excess_bits(n as nat) == k + excess_bits((n / d) as nat),
        decreases n - d,
    {
        proof {
            lemma_excess_step(n as nat, d as nat, k as nat);
            assert(2 * d <= n) by (nonlinear_arith)
                requires n / d >= 0x20_0000_0000_0000, d >= 1;
            if k >= 126 {
                if k > 126 {
                    lemma_pow2_strictly_increases(126, k as nat);
                }
                assert(false);
            }
        }
        d = 2 * d;
        k = k + 1;
    }
    assert(excess_bits((n / d) as nat) == 0);
    let q = rne_u128(n, d);
    assert(q * d <= 2 * n + 1) by (nonlinear_arith)
        requires q <= n / d + 1, d >= 1, d <= n + 1;
    (q, k, d)
}

/// `n as f64`, as an exact integer, for `n` below 2^126.
pub fn round53_u128(n: u128) -> (r: u128)
    requires
        n < 0x4000_0000_0000_0000_0000_0000_0000_0000,
    ensures
        r == round53(n as nat),
        r <= 2 * n + 1,
{
    let (q, _k, d) = round53_parts(n);
    q * d
}

} // verus!

verus! {

/// `a as f64 / b as f64` for positive 32-bit operands, as `(m, e, 2^e)`.
pub fn f64_quotient_u32(a: u32, b: u32) -> (r: (u128, u32, u128))
    requires
        a > 0,
        b > 0,
    ensures
        (r.0 as nat, r.1 as nat) == f64_quotient(a as nat, b as nat),
        r.2 == pow2(r.1 as nat),
        r.1 <= 84,
        pow2(52) <= r.0 <= pow2(53),
{
    proof {
        lemma2_to64();
        lemma2_to64_rest();
    }
    let target: u128 = (b as u128) * 0x10_0000_0000_0000;
    let mut num: u128 = a as u128;
    let mut e: u32 = 0;
    let mut d: u128 = 1;
    assert(pow2(52) == 0x10_0000_0000_0000);
    assert(target < 0x10_0000_0000_0000_0000_0000) by (nonlinear_arith)
        requires target == 0x10_0000_0000_0000 * (b as u128), b < 0x1_0000_0000u64;
    while num < target
        invariant
            target == pow2(52) * b,
            target < 0x10_0000_0000_0000_0000_0000,
            d <= num,
            b > 0,
            a > 0,
            a < 0x1_0000_0000,
            b < 0x1_0000_0000,
            d == pow2(e as nat),
            num == a * d,
            e <= 84,
            e > 0 ==> num < 2 * target,
            quotient_exp(a as nat, b as nat, 0) == quotient_exp(a as nat, b as nat, e as nat),
        decreases 84 - e,
    {
        proof {
            lemma_pow2_unfold(e as nat + 1);
            if e >= 84 {
                if e > 84 {
                    lemma_pow2_strictly_increases(84, e as nat);
                }
                lemma2_to64();
                lemma_pow2_adds(64, 20);
                assert(pow2(84) == 0x10_0000_0000_0000_0000_0000);
                assert(false);
            }
            assert(num * 2 == a * (2 * d)) by (nonlinear_arith)
                requires num == a * d;
        }
        num = num * 2;
        d = d * 2;
        e = e + 1;
    }
    assert(quotient_exp(a as nat, b as nat, e as nat) == e as nat);
    let m = rne_u128(num, b as u128);
    proof {
        if e == 0 {
            assert(num < 0x1_0000_0000);
        }
        assert(num / (b as u128) >= pow2(52)) by (nonlinear_arith)
            requires num >= pow2(52) * b, b > 0;
        assert(num / (b as u128) < pow2(53)) by (nonlinear_arith)
            requires num < 2 * (pow2(52) * b), b > 0, pow2(53) == 2 * pow2(52);
    }
    (m, e, d)
}

/// `x <= y` for doubles held as `(m, e)` with `2^52 <= m <= 2^53` and `e <= 127`.
pub fn f64_le_exec(x: (u128, u32), y: (u128, u32)) -> (r: bool)
    requires
        pow2(52) <= x.0 <= pow2(53),
        pow2(52) <= y.0 <= pow2(53),
        x.1 <= 127,
        y.1 <= 127,
    ensures
        r == f64_le((x.0 as nat, x.1 as nat), (y.0 as nat, y.1 as nat)),
{
    proof {
        lemma2_to64();
        lemma2_to64_rest();
    }
    if x.1 <= y.1 {
        let gap = y.1 - x.1;
        proof {
            lemma_pow2_adds(x.1 as nat, gap as nat);
            lemma_pow2_pos(x.1 as nat);
            lemma_pow2_pos(gap as nat);
        }
        if gap >= 2 {
            proof {
                if gap > 2 {
                    lemma_pow2_strictly_increases(2, gap as nat);
                }
                assert(x.0 * pow2(gap as nat) > y.0) by (nonlinear_arith)
                    requires x.0 >= pow2(52), pow2(gap as nat) >= 4, y.0 <= pow2(53), pow2(53) == 2 * pow2(52), pow2(52) > 0;
                assert(x.0 * pow2(y.1 as nat) > y.0 * pow2(x.1 as nat)) by (nonlinear_arith)
                    requires x.0 * pow2(gap as nat) > y.0, pow2(y.1 as nat) == pow2(x.1 as nat) * pow2(gap as nat), pow2(x.1 as nat) > 0;
            }
            false
        } else {
            let scaled: u128 = if gap == 0 { x.0 } else { x.0 * 2 };
            proof {
                if gap == 1 {
                    lemma_pow2_unfold(1);
                }
                assert(scaled == x.0 * pow2(gap as nat));
                assert((scaled <= y.0) == (x.0 * pow2(y.1 as nat) <= y.0 * pow2(x.1 as nat))) by (nonlinear_arith)
                    requires scaled == x.0 * pow2(gap as nat), pow2(y.1 as nat) == pow2(x.1 as nat) * pow2(gap as nat), pow2(x.1 as nat) > 0;
            }
            scaled <= y.0
        }
    } else {
        let gap = x.1 - y.1;
        proof {
            lemma_pow2_adds(y.1 as nat, gap as nat);
            lemma_pow2_pos(y.1 as nat);
            lemma_pow2_pos(gap as nat);
        }
        if gap >= 2 {
            proof {
                if gap > 2 {
                    lemma_pow2_strictly_increases(2, gap as nat);
                }
                assert(y.0 * pow2(gap as nat) > x.0) by (nonlinear_arith)
                    requires y.0 >= pow2(52), pow2(gap as nat) >= 4, x.0 <= pow2(53), pow2(53) == 2 * pow2(52), pow2(52) > 0;
                assert(x.0 * pow2(y.1 as nat) < y.0 * pow2(x.1 as nat)) by (nonlinear_arith)
                    requires y.0 * pow2(gap as nat) > x.0, pow2(x.1 as nat) == pow2(y.1 as nat) * pow2(gap as nat), pow2(y.1 as nat) > 0;
            }
            true
        } else {
            let scaled: u128 = y.0 * 2;
            proof {
                lemma_pow2_unfold(1);
                assert((x.0 <= scaled) == (x.0 * pow2(y.1 as nat) <= y.0 * pow2(x.1 as nat))) by (nonlinear_arith)
                    requires scaled == y.0 * pow2(gap as nat), pow2(x.1 as nat) == pow2(y.1 as nat) * pow2(gap as nat), pow2(y.1 as nat) > 0;
            }
            x.0 <= scaled
        }
    }
}

} // verus!

verus! {

/// A value below `2^53 * 2^j` loses at most `j` bits.
pub proof fn lemma_excess_bits_bound(n: nat, j: nat)
    requires
        n < two_53() * pow2(j),
    ensures
        excess_bits(n) <= j,
    decreases n,
{
    if n >= two_53() {
        if j == 0 {
            lemma2_to64();
            assert(false);
        } else {
            lemma_pow2_unfold(j);
            assert(n / 2 < two_53() * pow2((j - 1) as nat)) by (nonlinear_arith)
                requires
                    n < two_53() * pow2(j),
                    pow2(j) == 2 * pow2((j - 1) as nat),
            ;
            lemma_excess_bits_bound(n / 2, (j - 1) as nat);
        }
    }
}

/// Rounding to a multiple of `d` never passes a multiple of `d` that is at
/// least the value rounded.
pub proof fn lemma_rne_below_multiple(n: nat, d: nat, bound: nat)
    requires
        d > 0,
        n <= bound,
        bound % d == 0,
    ensures
        rne(n, d) * d <= bound,
{
    let q = n / d;
    let r = n % d;
    vstd::arithmetic::div_mod::lemma_fundamental_div_mod(n as int, d as int);
    vstd::arithmetic::div_mod::lemma_fundamental_div_mod(bound as int, d as int);
    let bq = bound / d;
    assert(q <= bq) by {
        vstd::arithmetic::div_mod::lemma_div_is_ordered(n as int, bound as int, d as int);
    }
    if r > 0 {
        assert(q < bq) by (nonlinear_arith)
            requires
                n == d * q + r,
                bound == d * bq,
                n <= bound,
                r > 0,
                d > 0,
                q <= bq,
        ;
        assert((q + 1) * d <= bound) by (nonlinear_arith)
            requires
                q < bq,
                bound == d * bq,
                d > 0,
        ;
        assert(q * d <= bound) by (nonlinear_arith)
            requires
                q < bq,
                bound == d * bq,
                d > 0,
        ;
    } else {
        assert(q * d == n) by (nonlinear_arith)
            requires
                n == d * q + r,
                r == 0,
        ;
    }
}

/// A double of at most 53 significant bits that bounds `s * m` from above,
/// scaled back, bounds the floor of the rounded product: with
/// `m <= 2^e`, `(s as f64 * (m / 2^e)).floor() <= s`.
pub proof fn lemma_scaled_floor_at_most(s: nat, m: nat, e: nat)
    requires
        m <= pow2(e),
        s < two_53(),
    ensures
        scaled_floor(s, (m, e)) <= s,
{
    let n = s * m;
    let bound = s * pow2(e);
    lemma_pow2_pos(e);
    assert(n <= bound) by (nonlinear_arith)
        requires
            m <= pow2(e),
            n == s * m,
            bound == s * pow2(e),
    ;
    assert(bound < two_53() * pow2(e)) by (nonlinear_arith)
        requires
            s < two_53(),
            bound == s * pow2(e),
            pow2(e) > 0,
    ;
    lemma_excess_bits_bound(n, e);
    let k = excess_bits(n);
    let d = pow2(k);
    lemma_pow2_pos(k);
    lemma_pow2_adds(k, (e - k) as nat);
    assert(bound % d == 0) by {
        assert(bound == (s * pow2((e - k) as nat)) * d) by (nonlinear_arith)
            requires
                bound == s * pow2(e),
                pow2(e) == d * pow2((e - k) as nat),
        ;
        vstd::arithmetic::div_mod::lemma_mod_multiples_basic((s * pow2((e - k) as nat)) as int, d as int);
    }
    lemma_rne_below_multiple(n, d, bound);
    assert(round53(n) <= bound);
    vstd::arithmetic::div_mod::lemma_div_is_ordered(round53(n) as int, bound as int, pow2(e) as int);
    assert(bound / pow2(e) == s) by {
        vstd::arithmetic::div_mod::lemma_div_multiples_vanish(s as int, pow2(e) as int);
        assert(s * pow2(e) == pow2(e) * s) by (nonlinear_arith);
    }
}

} // verus!

verus! {

/// A value that loses `k >= 1` bits has at least `52 + k` bits.
proof fn lemma_excess_bits_lower(n: nat)
    requires
        excess_bits(n) >= 1,
    ensures
        n >= pow2(52) * pow2(excess_bits(n)),
    decreases n,
{
    lemma2_to64();
    lemma2_to64_rest();
    let k = excess_bits(n);
    lemma_pow2_unfold(k);
    if excess_bits(n / 2) >= 1 {
        lemma_excess_bits_lower(n / 2);
    } else {
        assert(k == 1);
        assert(pow2(0) == 1);
    }
}

/// `n as f64` is at most `n * (1 + 2^-53)`.
pub proof fn lemma_round53_error(n: nat)
    ensures
        two_53() * round53(n) <= (two_53() + 1) * n,
{
    let k = excess_bits(n);
    let d = pow2(k);
    lemma_pow2_pos(k);
    let q = n / d;
    let r = n % d;
    vstd::arithmetic::div_mod::lemma_fundamental_div_mod(n as int, d as int);
    assert(2 * rne(n, d) * d <= 2 * n + d) by (nonlinear_arith)
        requires
            n == d * q + r,
            0 <= r < d,
            rne(n, d) == q || (rne(n, d) == q + 1 && 2 * r >= d),
    ;
    if k == 0 {
        lemma2_to64();
        assert(round53(n) == rne(n, 1) * 1);
        assert(rne(n, 1) == n);
        assert(two_53() * round53(n) <= (two_53() + 1) * n) by (nonlinear_arith)
            requires round53(n) == n;
    } else {
        lemma_excess_bits_lower(n);
        lemma2_to64_rest();
        assert(two_53() * round53(n) <= (two_53() + 1) * n) by (nonlinear_arith)
            requires
                2 * rne(n, d) * d <= 2 * n + d,
                round53(n) == rne(n, d) * d,
                n >= pow2(52) * d,
                pow2(52) == 0x10_0000_0000_0000,
                two_53() == 0x20_0000_0000_0000,
        ;
    }
}

/// `f64_le` is transitive.
pub proof fn lemma_f64_le_transitive(a: (nat, nat), b: (nat, nat), c: (nat, nat))
    requires
        f64_le(a, b),
        f64_le(b, c),
    ensures
        f64_le(a, c),
{
    lemma_pow2_pos(a.1);
    lemma_pow2_pos(b.1);
    lemma_pow2_pos(c.1);
    let (pa, pb, pc) = (pow2(a.1), pow2(b.1), pow2(c.1));
    assert(a.0 * pc * pb <= c.0 * pa * pb) by (nonlinear_arith)
        requires
            a.0 * pb <= b.0 * pa,
            b.0 * pc <= c.0 * pb,
            pa > 0,
            pb > 0,
            pc > 0,
    ;
    assert(a.0 * pc <= c.0 * pa) by (nonlinear_arith)
        requires
            a.0 * pc * pb <= c.0 * pa * pb,
            pb > 0,
    ;
}

/// `f64_le` is total.
pub proof fn lemma_f64_le_total(a: (nat, nat), b: (nat, nat))
    ensures
        f64_le(a, b) || f64_le(b, a),
{
}

/// The exponent search finds a scale at which `a * 2^e` reaches `2^52 * b`.
proof fn lemma_quotient_exp_reaches(a: nat, b: nat, from: nat)
    requires
        1 <= a,
        b < 0x1_0000_0000,
        from <= 84,
    ensures
        pow2(52) * b <= a * pow2(quotient_exp(a, b, from)),
    decreases 84 - from,
{
    if a * pow2(from) < pow2(52) * b {
        if from == 84 {
            lemma2_to64();
            lemma2_to64_rest();
            lemma_pow2_adds(64, 20);
            assert(a * pow2(84) >= pow2(84)) by (nonlinear_arith)
                requires a >= 1;
            assert(pow2(52) * b < pow2(84)) by (nonlinear_arith)
                requires
                    b < 0x1_0000_0000,
                    pow2(52) == 0x10_0000_0000_0000,
                    pow2(84) == pow2(64) * pow2(20),
                    pow2(64) == 0x1_0000_0000_0000_0000,
                    pow2(20) == 0x10_0000,
            ;
            assert(false);
        }
        lemma_quotient_exp_reaches(a, b, from + 1);
    }
}

/// What the double nearest to `a / b` satisfies: it is scaled into the
/// 53-bit range, and it is at most half a unit above `a / b`.
pub proof fn lemma_quotient_facts(a: nat, b: nat)
    requires
        1 <= a < 0x1_0000_0000,
        1 <= b < 0x1_0000_0000,
    ensures
        pow2(52) * b <= a * pow2(f64_quotient(a, b).1),
        2 * f64_quotient(a, b).0 * b <= 2 * a * pow2(f64_quotient(a, b).1) + b,
{
    lemma_quotient_exp_reaches(a, b, 0);
    let e = quotient_exp(a, b, 0);
    let n = a * pow2(e);
    let q = n / b;
    let r = n % b;
    vstd::arithmetic::div_mod::lemma_fundamental_div_mod(n as int, b as int);
    assert(2 * rne(n, b) * b <= 2 * n + b) by (nonlinear_arith)
        requires
            n == b * q + r,
            0 <= r < b,
            rne(n, b) == q || (rne(n, b) == q + 1 && 2 * r >= b),
    ;
    assert(2 * a * pow2(e) == 2 * n) by (nonlinear_arith)
        requires n == a * pow2(e);
}

} // verus!

verus! {

/// Doubling commutes with rounding to a double.
proof fn lemma_round53_double(n: nat)
    ensures
        round53(2 * n) == 2 * round53(n),
{
    lemma2_to64();
    if 2 * n < two_53() {
        assert(excess_bits(2 * n) == 0);
        assert(excess_bits(n) == 0);
        assert(rne(2 * n, 1) == 2 * n);
        assert(rne(n, 1) == n);
    } else {
        assert((2 * n) / 2 == n);
        assert(excess_bits(2 * n) == 1 + excess_bits(n));
        let k = excess_bits(n);
        let d = pow2(k);
        lemma_pow2_pos(k);
        lemma_pow2_unfold(k + 1);
        assert(pow2(excess_bits(2 * n)) == 2 * d);
        let q = n / d;
        let r = n % d;
        vstd::arithmetic::div_mod::lemma_fundamental_div_mod(n as int, d as int);
        assert(2 * n == q * (2 * d) + 2 * r) by (nonlinear_arith)
            requires n == d * q + r;
        vstd::arithmetic::div_mod::lemma_fundamental_div_mod_converse(
            (2 * n) as int,
            (2 * d) as int,
            q as int,
            (2 * r) as int,
        );
        assert(rne(2 * n, 2 * d) == rne(n, d));
        assert(rne(n, d) * (2 * d) == 2 * (rne(n, d) * d)) by (nonlinear_arith);
    }
}

/// Scaling by a power of two commutes with rounding to a double.
pub proof fn lemma_round53_scale(n: nat, j: nat)
    ensures
        round53(n * pow2(j)) == round53(n) * pow2(j),
    decreases j,
{
    if j == 0 {
        lemma2_to64();
        assert(n * pow2(0) == n);
        assert(round53(n) * pow2(0) == round53(n));
    } else {
        lemma_pow2_unfold(j);
        let p = pow2((j - 1) as nat);
        lemma_round53_scale(n, (j - 1) as nat);
        assert(n * pow2(j) == 2 * (n * p)) by (nonlinear_arith)
            requires pow2(j) == 2 * p;
        lemma_round53_double(n * p);
        assert(2 * (round53(n) * p) == round53(n) * pow2(j)) by (nonlinear_arith)
            requires pow2(j) == 2 * p;
    }
}

/// A larger integer never loses fewer bits.
proof fn lemma_excess_bits_monotone(a: nat, b: nat)
    requires
        a <= b,
    ensures
        excess_bits(a) <= excess_bits(b),
    decreases b,
{
    if a >= two_53() {
        vstd::arithmetic::div_mod::lemma_div_is_ordered(a as int, b as int, 2);
        lemma_excess_bits_monotone(a / 2, b / 2);
    }
}

/// An integer that loses `k` bits is below `2^53 * 2^k`.
proof fn lemma_excess_bits_upper(n: nat)
    ensures
        n < two_53() * pow2(excess_bits(n)),
    decreases n,
{
    if n < two_53() {
        lemma2_to64();
    } else {
        lemma_excess_bits_upper(n / 2);
        let k = excess_bits(n / 2);
        let x = two_53() * pow2(k);
        lemma_pow2_unfold(k + 1);
        assert(n <= 2 * (n / 2) + 1);
        assert(n < two_53() * pow2(k + 1)) by (nonlinear_arith)
            requires
                n / 2 < x,
                n <= 2 * (n / 2) + 1,
                x == two_53() * pow2(k),
                pow2(k + 1) == 2 * pow2(k),
        ;
    }
}

/// Rounding to a multiple of `d` is monotone.
proof fn lemma_rne_monotone(a: nat, b: nat, d: nat)
    requires
        a <= b,
        d > 0,
    ensures
        rne(a, d) <= rne(b, d),
{
    vstd::arithmetic::div_mod::lemma_fundamental_div_mod(a as int, d as int);
    vstd::arithmetic::div_mod::lemma_fundamental_div_mod(b as int, d as int);
    vstd::arithmetic::div_mod::lemma_div_is_ordered(a as int, b as int, d as int);
    if a / d == b / d {
        assert(a % d <= b % d);
    }
}

/// Rounding to a double is monotone.
pub proof fn lemma_round53_monotone(a: nat, b: nat)
    requires
        a <= b,
    ensures
        round53(a) <= round53(b),
{
    let ka = excess_bits(a);
    let kb = excess_bits(b);
    lemma_excess_bits_monotone(a, b);
    let da = pow2(ka);
    let db = pow2(kb);
    lemma_pow2_pos(ka);
    lemma_pow2_pos(kb);
    if ka == kb {
        lemma_rne_monotone(a, b, da);
        assert(rne(a, da) * da <= rne(b, da) * da) by (nonlinear_arith)
            requires rne(a, da) <= rne(b, da), da > 0;
    } else {
        let gap = (kb - ka) as nat;
        lemma_excess_bits_lower(b);
        lemma_excess_bits_upper(a);
        lemma_pow2_adds(ka, gap);
        lemma_pow2_unfold(gap);
        lemma_pow2_pos((gap - 1) as nat);
        lemma2_to64();
        lemma2_to64_rest();
        let bound = pow2(52) * db;
        assert(bound == (pow2(52) * pow2(gap)) * da) by (nonlinear_arith)
            requires bound == pow2(52) * db, db == da * pow2(gap);
        assert(a <= bound) by (nonlinear_arith)
            requires
                a < two_53() * da,
                two_53() == 2 * pow2(52),
                db == da * pow2(gap),
                pow2(gap) >= 2,
                bound == pow2(52) * db,
                da > 0,
        ;
        vstd::arithmetic::div_mod::lemma_mod_multiples_basic((pow2(52) * pow2(gap)) as int, da as int);
        lemma_rne_below_multiple(a, da, bound);
        vstd::arithmetic::div_mod::lemma_div_is_ordered(bound as int, b as int, db as int);
        vstd::arithmetic::div_mod::lemma_div_by_multiple(pow2(52) as int, db as int);
        assert(rne(b, db) >= b / db);
        assert(rne(b, db) * db >= bound) by (nonlinear_arith)
            requires rne(b, db) >= b / db, b / db >= bound / db, bound / db == pow2(52), bound == pow2(52) * db;
    }
}

/// Whole numbers from 1 up stay at least 1 as doubles, and 0 stays 0.
pub proof fn lemma_round53_small(n: nat)
    ensures
        round53(0) == 0,
        n >= 1 ==> round53(n) >= 1,
{
    lemma2_to64();
    assert(excess_bits(0) == 0);
    assert(rne(0, 1) == 0);
    assert(excess_bits(1) == 0);
    assert(rne(1, 1) == 1);
    if n >= 1 {
        lemma_round53_monotone(1, n);
    }
}

} // verus!

verus! {

/// `2^k` for `k` below 128.
pub fn pow2_u128(k: u32) -> (r: u128)
    requires
        k < 128,
    ensures
        r == pow2(k as nat),
{
    let mut r: u128 = 1;
    let mut i: u32 = 0;
    proof {
        lemma2_to64();
        lemma2_to64_rest();
        lemma_pow2_adds(64, 63);
    }
    while i < k
        invariant
            i <= k,
            k < 128,
            r == pow2(i as nat),
            pow2(127) == pow2(64) * pow2(63),
            pow2(64) == 0x1_0000_0000_0000_0000,
            pow2(63) == 0x8000_0000_0000_0000,
        decreases k - i,
    {
        proof {
            lemma_pow2_unfold(i as nat + 1);
            if i + 1 < 127 {
                lemma_pow2_strictly_increases(i as nat + 1, 127);
            }
        }
        r = r * 2;
        i = i + 1;
    }
    r
}

/// `a as f64 / b as f64` for doubles holding whole numbers with
/// `1 <= a < 2 * b` and `b <= 2^65`: a quotient below 2, as `(m, e)`
/// standing for `m / 2^e`.
pub fn f64_fraction(a: u128, b: u128) -> (r: (u128, u32))
    requires
        1 <= a,
        a < 2 * b,
        b <= 0x2_0000_0000_0000_0000,
    ensures
        (r.0 as nat, r.1 as nat) == f64_quotient(a as nat, b as nat),
        52 <= r.1 <= 117,
        pow2(52) <= r.0 <= pow2(53),
{
    proof {
        lemma2_to64();
        lemma2_to64_rest();
        lemma_pow2_adds(64, 53);
    }
    let target: u128 = b * 0x10_0000_0000_0000;
    let mut num: u128 = a;
    let mut e: u32 = 0;
    let ghost mut d: nat = 1;
    while num < target
        invariant
            target == pow2(52) * b,
            pow2(52) == 0x10_0000_0000_0000,
            pow2(117) == 0x20_0000_0000_0000_0000_0000_0000_0000,
            b <= 0x2_0000_0000_0000_0000,
            1 <= a,
            a < 2 * b,
            d == pow2(e as nat),
            num == a * d,
            e <= 117,
            e > 0 ==> num < 2 * target,
            quotient_exp(a as nat, b as nat, 0) == quotient_exp(a as nat, b as nat, e as nat),
        decreases 117 - e,
    {
        proof {
            lemma_pow2_unfold(e as nat + 1);
            if e == 117 {
                assert(num >= target) by (nonlinear_arith)
                    requires
                        num == a * d,
                        a >= 1,
                        d == 0x20_0000_0000_0000_0000_0000_0000_0000,
                        target == 0x10_0000_0000_0000 * b,
                        b <= 0x2_0000_0000_0000_0000,
                ;
            }
            assert(num * 2 == a * (2 * d)) by (nonlinear_arith)
                requires num == a * d;
        }
        num = num * 2;
        proof {
            d = 2 * d;
        }
        e = e + 1;
    }
    assert(quotient_exp(a as nat, b as nat, e as nat) == e as nat);
    if e < 52 {
        proof {
            if e < 51 {
                lemma_pow2_strictly_increases(e as nat, 51);
            }
            lemma_pow2_unfold(52);
            let p = pow2(51);
            assert(a * d <= (2 * b - 1) * d) by (nonlinear_arith)
                requires a <= 2 * b - 1, d >= 0;
            assert((2 * b - 1) * d <= (2 * b - 1) * p) by (nonlinear_arith)
                requires d <= p, 2 * b - 1 >= 0;
            assert((2 * b - 1) * p == pow2(52) * b - p) by (nonlinear_arith)
                requires pow2(52) == 2 * p;
            lemma_pow2_pos(51);
        }
    }
    let m = rne_u128(num, b);
    proof {
        assert(num / b < pow2(53)) by (nonlinear_arith)
            requires num < 2 * (pow2(52) * b), b > 0, pow2(53) == 2 * pow2(52);
        assert(num / b >= pow2(52)) by (nonlinear_arith)
            requires num >= pow2(52) * b, b > 0;
    }
    (m, e)
}

} // verus!

verus! {

/// The exponent search stops by any exponent at which the quotient is in range.
proof fn lemma_quotient_exp_at_most(a: nat, b: nat, from: nat, bound: nat)
    requires
        from <= bound < 128,
        a * pow2(bound) >= pow2(52) * b,
    ensures
        quotient_exp(a, b, from) <= bound,
    decreases bound - from,
{
    if a * pow2(from) < pow2(52) * b {
        if from == bound {
            assert(false);
        }
        lemma_quotient_exp_at_most(a, b, from + 1, bound);
    }
}

/// A quotient of 2 or more rounds to a double of at least 2.
pub proof fn lemma_quotient_at_least_two(a: nat, b: nat)
    requires
        b >= 1,
        a >= 2 * b,
    ensures
        f64_le((2, 0), f64_quotient(a, b)),
{
    lemma2_to64();
    lemma2_to64_rest();
    assert(a * pow2(51) >= pow2(52) * b) by (nonlinear_arith)
        requires a >= 2 * b, pow2(52) == 2 * pow2(51);
    lemma_quotient_exp_at_most(a, b, 0, 51);
    let e = quotient_exp(a, b, 0);
    let x = pow2(e);
    lemma_pow2_pos(e);
    let n = a * x;
    assert(n >= (2 * x) * b) by (nonlinear_arith)
        requires n == a * x, a >= 2 * b, x > 0;
    vstd::arithmetic::div_mod::lemma_div_is_ordered(((2 * x) * b) as int, n as int, b as int);
    vstd::arithmetic::div_mod::lemma_div_by_multiple((2 * x) as int, b as int);
    assert(rne(n, b) >= n / b);
    assert(2 * x <= rne(n, b) * pow2(0));
}


/// The exponent search never returns less than where it starts.
proof fn lemma_quotient_exp_from(a: nat, b: nat, from: nat)
    ensures
        quotient_exp(a, b, from) >= from,
    decreases 128 - from,
{
    if !(from >= 128 || a * pow2(from) >= pow2(52) * b) {
        lemma_quotient_exp_from(a, b, from + 1);
    }
}

/// For a quotient below 2, the exponent search passes every exponent below 52.
proof fn lemma_quotient_exp_at_least(a: nat, b: nat, from: nat)
    requires
        from <= 52,
        a < 2 * b,
    ensures
        quotient_exp(a, b, from) >= 52,
    decreases 52 - from,
{
    if from == 52 {
        lemma_quotient_exp_from(a, b, from);
    } else {
        if from < 51 {
            lemma_pow2_strictly_increases(from, 51);
        }
        lemma_pow2_unfold(52);
        lemma_pow2_pos(from);
        let p = pow2(51);
        let x = pow2(from);
        assert(a * x < pow2(52) * b) by (nonlinear_arith)
            requires a < 2 * b, x <= p, pow2(52) == 2 * p, x > 0;
        lemma_quotient_exp_at_least(a, b, from + 1);
    }
}

/// A quotient of at least 1 rounds to a double of at least 1.
pub proof fn lemma_quotient_at_least_one(a: nat, b: nat)
    requires
        1 <= b <= a,
    ensures
        f64_le((1, 0), f64_quotient(a, b)),
{
    lemma2_to64();
    lemma2_to64_rest();
    if a >= 2 * b {
        lemma_quotient_at_least_two(a, b);
        lemma_f64_le_transitive((1, 0), (2, 0), f64_quotient(a, b));
    } else {
        assert(a * pow2(52) >= pow2(52) * b) by (nonlinear_arith)
            requires a >= b;
        lemma_quotient_exp_at_most(a, b, 0, 52);
        lemma_quotient_exp_at_least(a, b, 0);
        let n = a * pow2(52);
        vstd::arithmetic::div_mod::lemma_div_is_ordered((pow2(52) * b) as int, n as int, b as int);
        vstd::arithmetic::div_mod::lemma_div_by_multiple(pow2(52) as int, b as int);
        assert(pow2(52) * b == b * pow2(52)) by (nonlinear_arith);
        assert(quotient_exp(a, b, 0) == 52);
        let m = rne(n, b);
        assert(m >= n / b);
        assert(m >= pow2(52));
        assert(f64_quotient(a, b) == (m, 52nat));
        assert(1 * pow2(52) <= m * pow2(0));
    }
}

} // verus!

verus! {

/// Rounding to a multiple of `d` loses at most half of `d`.
proof fn lemma_rne_lower(n: nat, d: nat)
    requires
        d > 0,
    ensures
        2 * rne(n, d) * d + d >= 2 * n,
{
    vstd::arithmetic::div_mod::lemma_fundamental_div_mod(n as int, d as int);
    let q = n / d;
    let r = n % d;
    assert(2 * rne(n, d) * d + d >= 2 * n) by (nonlinear_arith)
        requires
            n == d * q + r,
            0 <= r < d,
            rne(n, d) == q + 1 || (rne(n, d) == q && 2 * r <= d),
    ;
}

/// `n as f64` is at least `n * (1 - 2^-53)`.
pub proof fn lemma_round53_lower(n: nat)
    ensures
        two_53() * round53(n) + n >= two_53() * n,
{
    let k = excess_bits(n);
    let d = pow2(k);
    lemma_pow2_pos(k);
    lemma_rne_lower(n, d);
    lemma2_to64();
    lemma2_to64_rest();
    if k == 0 {
        assert(round53(n) == rne(n, 1) * 1);
        assert(rne(n, 1) == n);
    } else {
        lemma_excess_bits_lower(n);
        assert(two_53() * round53(n) + n >= two_53() * n) by (nonlinear_arith)
            requires
                2 * rne(n, d) * d + d >= 2 * n,
                round53(n) == rne(n, d) * d,
                n >= pow2(52) * d,
                pow2(52) == 0x10_0000_0000_0000,
                two_53() == 0x20_0000_0000_0000,
        ;
    }
}

/// The double nearest to `a / b` is at least `(a / b) * (1 - 2^-53)`.
pub proof fn lemma_quotient_lower(a: nat, b: nat)
    requires
        a < 0x1_0000_0000,
        1 <= b < 0x1_0000_0000,
    ensures
        f64_quotient(a, b).0 * b * two_53() + a * pow2(f64_quotient(a, b).1) >= a * pow2(
            f64_quotient(a, b).1,
        ) * two_53(),
{
    if a >= 1 {
        lemma_quotient_facts(a, b);
        let e = f64_quotient(a, b).1;
        let m = f64_quotient(a, b).0;
        let n = a * pow2(e);
        lemma_rne_lower(n, b);
        lemma2_to64();
        lemma2_to64_rest();
        assert(m * b * two_53() + n >= n * two_53()) by (nonlinear_arith)
            requires
                2 * m * b + b >= 2 * n,
                pow2(52) * b <= n,
                pow2(52) == 0x10_0000_0000_0000,
                two_53() == 0x20_0000_0000_0000,
        ;
    }
}


/// The double nearest to `a / b` is at most `(a / b) * (1 + 2^-53)`.
pub proof fn lemma_quotient_upper(a: nat, b: nat)
    requires
        a < 0x1_0000_0000,
        1 <= b < 0x1_0000_0000,
    ensures
        f64_quotient(a, b).0 * b * two_53() <= a * pow2(f64_quotient(a, b).1) * (two_53() + 1),
{
    let e = f64_quotient(a, b).1;
    let m = f64_quotient(a, b).0;
    lemma2_to64();
    lemma2_to64_rest();
    if a >= 1 {
        lemma_quotient_facts(a, b);
        let n = a * pow2(e);
        assert(2 * a * pow2(e) == 2 * n) by (nonlinear_arith)
            requires n == a * pow2(e);
        assert(m * b * two_53() <= n * (two_53() + 1)) by (nonlinear_arith)
            requires
                2 * m * b <= 2 * n + b,
                pow2(52) * b <= n,
                pow2(52) == 0x10_0000_0000_0000,
                two_53() == 0x20_0000_0000_0000,
        ;
    } else {
        assert(quotient_exp(0, b, 0) == e);
        assert(0 * pow2(e) == 0);
        assert(m == 0);
        assert(m * b * two_53() == 0) by (nonlinear_arith)
            requires m == 0;
    }
}

} // verus!
